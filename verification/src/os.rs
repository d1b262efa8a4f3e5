//! What is asked of the operating system, and what is made of its answers.
//!
//! The library decides which calls are made and what follows from each answer. Making the
//! calls is left to its user: an [`OsCall`] says what to do, and the answer is handed back
//! as a plain value.

use crate::bits;
use crate::os_backed::ProtectFlags;
use crate::outside::{
    advice_values, einval, error_invalid_parameter, map_bits, page_protections, prot_bits,
};
use vstd::arithmetic::power2::*;
use vstd::prelude::*;

verus! {

/// The kind of system that the program runs on.
#[derive(Clone, Copy, Debug, PartialEq, Eq, Structural)]
pub enum Target {
    Linux,
    /// macOS on x86-64.
    MacX86,
    /// macOS on Apple Silicon.
    MacArm,
    OtherUnix,
    Windows,
}

/// A call to be made to the operating system.
#[derive(Clone, Copy, Debug, PartialEq, Eq, Structural)]
pub enum OsCall {
    /// Map `len` fresh zeroed bytes, readable and writable, faulted in at once if
    /// `populate` is set.
    MapPages { len: usize, populate: bool },
    /// Map `len` bytes of huge pages of the given size.
    MapHuge { len: usize, huge_page_size: usize },
    /// Give back a mapping.
    Unmap { addr: usize, len: usize },
    /// Give back the pages behind a range, keeping the range reserved.
    Release { addr: usize, len: usize },
    /// Change what may be done with a range.
    Protect { addr: usize, len: usize, flags: ProtectFlags },
    /// Keep a range in physical memory.
    Lock { addr: usize, len: usize },
    /// Keep a range out of core dumps.
    HideFromDumps { addr: usize, len: usize },
    /// Undo a lock.
    Unlock { addr: usize, len: usize },
    /// Tie a range to memory nodes.
    Bind { addr: usize, len: usize, mode: i32, mask: u64, maxnode: u32 },
}

/// What the library needs to know of the system: its kind and its page size.
#[derive(Clone, Copy, Debug)]
pub struct Platform {
    target: Target,
    page: usize,
}

impl Platform {
    #[verifier::type_invariant]
    pub closed spec fn inv(&self) -> bool {
        is_pow2(self.page as int)
    }

    pub closed spec fn target_spec(&self) -> Target {
        self.target
    }

    pub closed spec fn page_spec(&self) -> usize {
        self.page
    }

    /// A system of the given kind, whose pages have the given size.
    pub fn new(target: Target, page: usize) -> (r: Self)
        requires
            is_pow2(page as int),
        ensures
            r.target() == target,
            r.page() == page,
    {
        Platform { target, page }
    }

    /// The kind of system.
    #[verifier::when_used_as_spec(target_spec)]
    pub fn target(&self) -> (r: Target)
        ensures
            r == self.target(),
    {
        self.target
    }

    /// The page size in bytes.
    #[verifier::when_used_as_spec(page_spec)]
    pub fn page(&self) -> (r: usize)
        ensures
            r == self.page(),
            r > 0,
            is_pow2(r as int),
    {
        proof {
            use_type_invariant(self);
            reveal(is_pow2);
        }
        self.page
    }
}

/// The page size, given what the system reports of it: the report where it is positive,
/// else 4096.
pub fn page_size(reported: i64) -> (r: usize)
    requires
        reported <= usize::MAX,
    ensures
        r == if reported > 0 {
            reported as int
        } else {
            4096
        },
{
    if reported > 0 {
        reported as usize
    } else {
        4096
    }
}

/// The last error that a call met with, if any.
#[derive(Clone, Copy, Debug, PartialEq, Eq, Structural)]
pub struct OsErrorSlot {
    pub code: Option<i32>,
}

impl OsErrorSlot {
    /// No error yet.
    pub fn new() -> (r: Self)
        ensures
            r.code is None,
    {
        OsErrorSlot { code: None }
    }
}

/// The error in the slot.
pub fn mmap_last_os_error(slot: &OsErrorSlot) -> (r: Option<i32>)
    ensures
        r == slot.code,
{
    slot.code
}

/// Empties the slot.
pub fn mmap_clear_last_os_error(slot: &mut OsErrorSlot)
    ensures
        final(slot).code is None,
{
    slot.code = None;
}

/// Puts the error that the system reports into the slot.
pub fn mmap_record_os_error(slot: &mut OsErrorSlot, reported: Option<i32>)
    ensures
        final(slot).code == reported,
{
    slot.code = reported;
}

/// The code that stands for an argument that was rejected before any call was made.
pub open spec fn invalid_argument(target: Target) -> i32 {
    if target == Target::Windows {
        87
    } else {
        22
    }
}

/// Takes note of the answer to a call that is not checked otherwise: a failure is kept, a
/// success leaves the slot as it is.
pub fn note_reply(slot: &mut OsErrorSlot, reply: Result<(), i32>)
    ensures
        final(slot).code == match reply {
            Ok(_) => old(slot).code,
            Err(code) => Some(code),
        },
{
    if let Err(code) = reply {
        mmap_record_os_error(slot, Some(code));
    }
}

/// Puts the code for a rejected argument into the slot.
pub fn capture_synthetic_einval(slot: &mut OsErrorSlot, target: Target)
    ensures
        final(slot).code == Some(invalid_argument(target)),
{
    let code: i32 = if target == Target::Windows {
        error_invalid_parameter() as i32
    } else {
        einval()
    };
    slot.code = Some(code);
}

/// The protection argument of `mprotect` for the given flags: one bit for each, none
/// added and none dropped.
pub fn unix_prot_from_flags(flags: ProtectFlags) -> (r: i32)
    ensures
        r == (if flags.read {
            1int
        } else {
            0
        }) + (if flags.write {
            2int
        } else {
            0
        }) + (if flags.execute {
            4int
        } else {
            0
        }),
{
    let (none, read, write, execute) = prot_bits();
    proof {
        assert(0i32 | 1i32 == 1 && 0i32 | 2i32 == 2 && 0i32 | 4i32 == 4 && 1i32 | 2i32 == 3 && 1i32
            | 4i32 == 5 && 2i32 | 4i32 == 6 && 3i32 | 4i32 == 7) by (bit_vector);
    }
    let mut prot: i32 = 0;
    if flags.read {
        prot = prot | read;
    }
    if flags.write {
        prot = prot | write;
    }
    if flags.execute {
        prot = prot | execute;
    }
    if !flags.read && !flags.write && !flags.execute {
        prot = none;
    }
    prot
}

/// What a `PAGE_*` value permits: reading, writing, executing.
pub open spec fn page_permits(value: u32) -> (bool, bool, bool) {
    if value == 1 {
        (false, false, false)
    } else if value == 2 {
        (true, false, false)
    } else if value == 4 {
        (true, true, false)
    } else if value == 0x10 {
        (false, false, true)
    } else if value == 0x20 {
        (true, false, true)
    } else {
        (true, true, true)
    }
}

/// The `PAGE_*` value for the given flags. There is none that permits writing without
/// reading, so reading is permitted along with writing; else the flags are kept exactly.
pub fn win32_prot_from_flags(flags: ProtectFlags) -> (r: u32)
    ensures
        r == 1 || r == 2 || r == 4 || r == 0x10 || r == 0x20 || r == 0x40,
        page_permits(r) == (flags.read || flags.write, flags.write, flags.execute),
{
    let (no_access, read_only, read_write, execute, execute_read, execute_read_write) =
        page_protections();
    if flags.write {
        if flags.execute {
            execute_read_write
        } else {
            read_write
        }
    } else if flags.read {
        if flags.execute {
            execute_read
        } else {
            read_only
        }
    } else if flags.execute {
        execute
    } else {
        no_access
    }
}

/// The arguments of `mmap` for a mapping that the system places.
#[derive(Clone, Copy, Debug, PartialEq, Eq, Structural)]
pub struct MapArgs {
    pub len: usize,
    pub prot: i32,
    pub flags: i32,
    pub fd: i32,
    pub offset: i64,
}

/// The arguments of the `mmap` call that maps `len` bytes on Linux: private, anonymous,
/// readable and writable, and populated if asked for.
pub fn os_map(len: usize, populate: bool) -> (r: MapArgs)
    ensures
        r.len == len,
        r.prot == 3,
        r.flags == if populate {
            0x8022int
        } else {
            0x22
        },
        r.fd == -1,
        r.offset == 0,
{
    let (_, read, write, _) = prot_bits();
    let (private, anonymous, populated, _, _) = map_bits();
    proof {
        assert(0x20i32 | 0x2i32 == 0x22 && 0x22i32 | 0x8000i32 == 0x8022 && 1i32 | 2i32 == 3)
            by (bit_vector);
    }
    let mut flags: i32 = anonymous | private;
    if populate {
        flags = flags | populated;
    }
    MapArgs { len, prot: read | write, flags, fd: -1, offset: 0 }
}

/// The number of times a power of two can be halved.
pub fn log2(x: usize) -> (r: u32)
    requires
        is_pow2(x as int),
    ensures
        r < usize::BITS,
        x == pow2(r as nat),
{
    let ghost n = bits::lemma_exponent(x);
    let mut y: usize = x;
    let mut r: u32 = 0;
    proof {
        reveal(is_pow2);
        lemma2_to64();
    }
    while y > 1
        invariant
            is_pow2(y as int),
            r <= n,
            n < usize::BITS,
            x == pow2(n),
            y == pow2((n - r) as nat),
        decreases y,
    {
        proof {
            reveal(is_pow2);
            if r == n {
                lemma2_to64();
            }
            lemma_pow2_unfold((n - r) as nat);
        }
        y = y / 2;
        r = r + 1;
    }
    proof {
        reveal(is_pow2);
        if r < n {
            lemma2_to64();
            lemma_pow2_strictly_increases(0, (n - r) as nat);
        }
    }
    r
}

/// The bits of `mmap`'s flags that select huge pages of the given size on Linux: the
/// base-two logarithm of the size, shifted left by 26 bits.
pub fn encode_huge_size_linux(huge_page_size: usize) -> (r: i32)
    requires
        is_pow2(huge_page_size as int),
    ensures
        exists|k: u32|
            k < usize::BITS && huge_page_size == #[trigger] pow2(k as nat) && r == (k << 26) as i32,
{
    let (_, _, _, _, shift) = map_bits();
    let k: u32 = log2(huge_page_size);
    let shift: u32 = shift as u32;
    (k << shift) as i32
}

/// The arguments of the `mmap` call that maps `len` bytes of huge pages on Linux.
pub fn os_map_huge(len: usize, huge_page_size: usize) -> (r: MapArgs)
    requires
        is_pow2(huge_page_size as int),
    ensures
        r.len == len,
        r.prot == 3,
        exists|k: u32|
            k < usize::BITS && huge_page_size == #[trigger] pow2(k as nat) && r.flags == 0x22i32
                | (0x40000i32 | (k << 26) as i32),
        r.fd == -1,
        r.offset == 0,
{
    let (_, read, write, _) = prot_bits();
    let (private, anonymous, _, huge, _) = map_bits();
    proof {
        assert(0x20i32 | 0x2i32 == 0x22 && 1i32 | 2i32 == 3) by (bit_vector);
    }
    let huge_flag: i32 = huge | encode_huge_size_linux(huge_page_size);
    MapArgs { len, prot: read | write, flags: anonymous | private | huge_flag, fd: -1, offset: 0 }
}

/// The advice with which `madvise` gives back pages on Linux.
pub fn release_advice() -> (r: i32)
    ensures
        r == 4,
{
    advice_values().0
}

/// The advice with which `madvise` keeps pages out of core dumps on Linux.
pub fn hide_advice() -> (r: i32)
    ensures
        r == 16,
{
    advice_values().1
}

} // verus!
