//! Authentication of the links of a free list.

use crate::memory;
use crate::outside;
use crate::outside::{ct_eq_u32, fresh_random_state, random_hash, sip13_digest};
use vstd::prelude::*;

verus! {

/// A link whose code does not match: the free list was written to by someone else.
#[derive(Clone, Copy, Debug, PartialEq, Eq, Structural)]
pub struct FreelistCorruption;

impl FreelistCorruption {
    /// The message shown for the error.
    pub fn message(&self) -> (r: &'static str)
        ensures
            r@ == "freelist link MAC mismatch — heap corruption or use-after-free"@,
    {
        "freelist link MAC mismatch — heap corruption or use-after-free"
    }
}

/// Authenticates the links of a free list: each link is stored with a code over its value
/// and the address it is stored at.
pub trait FreelistProtection {
    /// The code for a link.
    spec fn code(&self, next_idx: u32, slot_addr: usize) -> u32;

    /// Whether a stored code is accepted for a link.
    spec fn accepts(&self, next_idx: u32, stored_mac: u32, slot_addr: usize) -> bool;

    /// A link is accepted with the code it was signed with.
    proof fn signed_links_are_accepted(&self, next_idx: u32, slot_addr: usize)
        ensures
            self.accepts(next_idx, self.code(next_idx, slot_addr), slot_addr),
    ;

    /// The code for a link.
    fn sign(&self, next_idx: u32, slot_addr: usize) -> (r: u32)
        ensures
            r == self.code(next_idx, slot_addr),
    ;

    /// Checks a link against its stored code.
    fn verify(&self, next_idx: u32, stored_mac: u32, slot_addr: usize) -> (r: Result<
        (),
        FreelistCorruption,
    >)
        ensures
            r is Ok <==> self.accepts(next_idx, stored_mac, slot_addr),
    ;
}

/// No authentication: every link is accepted.
#[derive(Clone, Copy, Debug)]
pub struct NoProtection;

impl Default for NoProtection {
    fn default() -> (r: Self)
        ensures
            r == NoProtection,
    {
        NoProtection
    }
}

impl FreelistProtection for NoProtection {
    open spec fn code(&self, next_idx: u32, slot_addr: usize) -> u32 {
        0
    }

    open spec fn accepts(&self, next_idx: u32, stored_mac: u32, slot_addr: usize) -> bool {
        true
    }

    proof fn signed_links_are_accepted(&self, next_idx: u32, slot_addr: usize) {
    }

    fn sign(&self, next_idx: u32, slot_addr: usize) -> (r: u32) {
        0
    }

    fn verify(&self, next_idx: u32, stored_mac: u32, slot_addr: usize) -> (r: Result<
        (),
        FreelistCorruption,
    >) {
        Ok(())
    }
}

/// The code made of a 64-bit digest: its low half.
pub fn code_of_digest(digest: u64) -> (r: u32)
    ensures
        r == digest as u32,
        r == digest % 0x1_0000_0000,
{
    assert(digest as u32 == digest % 0x1_0000_0000) by (bit_vector);
    digest as u32
}

/// Compares a stored code with the expected one.
pub fn check_code(expected: u32, stored: u32) -> (r: Result<(), FreelistCorruption>)
    ensures
        r is Ok <==> expected == stored,
{
    if ct_eq_u32(expected, stored) {
        Ok(())
    } else {
        Err(FreelistCorruption)
    }
}

/// Authentication by a keyed hash (SipHash-1-3) of the link and its address, cut to 32 bits.
pub struct SipHashMAC {
    key: [u8; 16],
}

impl Clone for SipHashMAC {
    fn clone(&self) -> (r: Self)
        ensures
            r.key() == self.key(),
    {
        SipHashMAC { key: self.key }
    }
}

impl SipHashMAC {
    /// The key.
    pub closed spec fn key(&self) -> Seq<u8> {
        self.key@
    }

    /// Uses the given key.
    pub fn with_key(key: [u8; 16]) -> (r: Self)
        ensures
            r.key() == key@,
    {
        SipHashMAC { key }
    }

    /// Uses the key made of the bytes of two words, low byte first.
    pub fn with_words(k0: u64, k1: u64) -> (r: Self)
        ensures
            r.key() == memory::word_bytes(k0) + memory::word_bytes(k1),
    {
        let key: [u8; 16] = [
            (k0 & 0xff) as u8,
            ((k0 >> 8) & 0xff) as u8,
            ((k0 >> 16) & 0xff) as u8,
            ((k0 >> 24) & 0xff) as u8,
            ((k0 >> 32) & 0xff) as u8,
            ((k0 >> 40) & 0xff) as u8,
            ((k0 >> 48) & 0xff) as u8,
            ((k0 >> 56) & 0xff) as u8,
            (k1 & 0xff) as u8,
            ((k1 >> 8) & 0xff) as u8,
            ((k1 >> 16) & 0xff) as u8,
            ((k1 >> 24) & 0xff) as u8,
            ((k1 >> 32) & 0xff) as u8,
            ((k1 >> 40) & 0xff) as u8,
            ((k1 >> 48) & 0xff) as u8,
            ((k1 >> 56) & 0xff) as u8,
        ];
        assert(key@ =~= memory::word_bytes(k0) + memory::word_bytes(k1));
        SipHashMAC { key }
    }

    /// Uses a key drawn by the operating system: two hashes, each under a random state of its
    /// own.
    pub fn new() -> (r: Self)
        ensures
            r.key().len() == 16,
    {
        let k0: u64 = random_hash(&fresh_random_state(), 0);
        let k1: u64 = random_hash(&fresh_random_state(), 1);
        Self::with_words(k0, k1)
    }

    /// The code for a link.
    fn mac(&self, next_idx: u32, slot_addr: usize) -> (r: u32)
        ensures
            r == outside::sip13(self.key@, next_idx, slot_addr as u64) as u32,
    {
        code_of_digest(sip13_digest(&self.key, next_idx, slot_addr as u64))
    }

    /// Forgets the key, so that it does not outlive the value.
    pub fn wipe(&mut self)
        ensures
            final(self).key() == Seq::new(16, |i: int| 0u8),
    {
        self.key = [0, 0, 0, 0, 0, 0, 0, 0, 0, 0, 0, 0, 0, 0, 0, 0];
        assert(self.key@ =~= Seq::new(16, |i: int| 0u8));
    }
}

impl Default for SipHashMAC {
    fn default() -> (r: Self)
        ensures
            r.key().len() == 16,
    {
        Self::new()
    }
}

impl FreelistProtection for SipHashMAC {
    open spec fn code(&self, next_idx: u32, slot_addr: usize) -> u32 {
        outside::sip13(self.key(), next_idx, slot_addr as u64) as u32
    }

    open spec fn accepts(&self, next_idx: u32, stored_mac: u32, slot_addr: usize) -> bool {
        stored_mac == self.code(next_idx, slot_addr)
    }

    proof fn signed_links_are_accepted(&self, next_idx: u32, slot_addr: usize) {
    }

    fn sign(&self, next_idx: u32, slot_addr: usize) -> (r: u32) {
        self.mac(next_idx, slot_addr)
    }

    fn verify(&self, next_idx: u32, stored_mac: u32, slot_addr: usize) -> (r: Result<
        (),
        FreelistCorruption,
    >) {
        check_code(self.mac(next_idx, slot_addr), stored_mac)
    }
}

/// A code that was changed in any bit is rejected, whatever the key: exactly one code is
/// accepted for a link at an address.
pub proof fn changed_codes_are_rejected(
    mac: SipHashMAC,
    next_idx: u32,
    stored_mac: u32,
    slot_addr: usize,
)
    requires
        stored_mac != mac.code(next_idx, slot_addr),
    ensures
        !mac.accepts(next_idx, stored_mac, slot_addr),
{
}

/// Two values with the same key sign and accept alike.
pub proof fn same_key_same_codes(m1: SipHashMAC, m2: SipHashMAC, next_idx: u32, slot_addr: usize)
    requires
        m1.key() == m2.key(),
    ensures
        m1.code(next_idx, slot_addr) == m2.code(next_idx, slot_addr),
        m2.accepts(next_idx, m1.code(next_idx, slot_addr), slot_addr),
{
}

} // verus!
