//! Byte-addressed memory, as the allocators see it.
//!
//! An address is a `usize`. The memory behind it is handed to every operation that reads
//! or writes, so that what an allocator does to the bytes around a block is part of its
//! contract.

use vstd::prelude::*;

verus! {

/// An address, as contracts see it.
pub type Address = int;

/// Accessible addresses and what they hold.
pub type Bytes = Map<Address, u8>;

/// Memory that can be read and written one byte at a time.
///
/// The view maps every accessible address to the byte stored there.
pub trait Memory {
    /// The accessible addresses and what they hold.
    spec fn view(&self) -> Bytes;

    /// Reads the byte at `addr`.
    fn load(&self, addr: usize) -> (b: u8)
        requires
            self.view().contains_key(addr as int),
        ensures
            b == self.view()[addr as int],
    ;

    /// Writes the byte at `addr`.
    fn store(&mut self, addr: usize, b: u8)
        requires
            old(self).view().contains_key(addr as int),
        ensures
            final(self).view() == old(self).view().insert(addr as int, b),
    ;
}

/// `m` with the bytes of `s` written from address `at` on.
pub open spec fn overlay(m: Map<int, u8>, at: int, s: Seq<u8>) -> Map<int, u8> {
    Map::new(
        |a: int| m.contains_key(a),
        |a: int|
            if at <= a < at + s.len() {
                s[a - at]
            } else {
                m[a]
            },
    )
}

/// The `n` bytes of `m` from address `at` on.
pub open spec fn span_of(m: Map<int, u8>, at: int, n: int) -> Seq<u8> {
    Seq::new(n as nat, |i: int| m[at + i])
}

/// `n` copies of `b`.
pub open spec fn repeated(b: u8, n: int) -> Seq<u8> {
    Seq::new(n as nat, |i: int| b)
}

/// Every address from `at` to `at + n` is accessible.
pub open spec fn accessible(m: Map<int, u8>, at: int, n: int) -> bool {
    forall|a: int| at <= a < at + n ==> #[trigger] m.contains_key(a)
}

/// The bytes of a 64-bit word, low byte first.
pub open spec fn word_bytes(v: u64) -> Seq<u8> {
    seq![
        (v & 0xff) as u8,
        ((v >> 8) & 0xff) as u8,
        ((v >> 16) & 0xff) as u8,
        ((v >> 24) & 0xff) as u8,
        ((v >> 32) & 0xff) as u8,
        ((v >> 40) & 0xff) as u8,
        ((v >> 48) & 0xff) as u8,
        ((v >> 56) & 0xff) as u8,
    ]
}

/// The 64-bit word with the given bytes, low byte first.
pub open spec fn bytes_word(s: Seq<u8>) -> u64 {
    (s[0] as u64) | (s[1] as u64) << 8 | (s[2] as u64) << 16 | (s[3] as u64) << 24 | (s[4] as u64)
        << 32 | (s[5] as u64) << 40 | (s[6] as u64) << 48 | (s[7] as u64) << 56
}

/// The 64-bit word stored from address `at` on, low byte first.
pub open spec fn word_at(m: Map<int, u8>, at: int) -> u64 {
    bytes_word(span_of(m, at, 8))
}

/// `m` with the word `v` stored from address `at` on.
pub open spec fn put_word(m: Map<int, u8>, at: int, v: u64) -> Map<int, u8> {
    overlay(m, at, word_bytes(v))
}

/// A word is recovered from its bytes.
pub proof fn lemma_word_round_trip(v: u64)
    ensures
        bytes_word(word_bytes(v)) == v,
{
    let s = word_bytes(v);
    assert(s[0] == (v & 0xff) as u8 && s[1] == ((v >> 8) & 0xff) as u8 && s[2] == ((v >> 16)
        & 0xff) as u8 && s[3] == ((v >> 24) & 0xff) as u8 && s[4] == ((v >> 32) & 0xff) as u8
        && s[5] == ((v >> 40) & 0xff) as u8 && s[6] == ((v >> 48) & 0xff) as u8 && s[7] == ((v
        >> 56) & 0xff) as u8);
    assert((((v & 0xff) as u8) as u64) | ((((v >> 8) & 0xff) as u8) as u64) << 8 | ((((v >> 16)
        & 0xff) as u8) as u64) << 16 | ((((v >> 24) & 0xff) as u8) as u64) << 24 | ((((v >> 32)
        & 0xff) as u8) as u64) << 32 | ((((v >> 40) & 0xff) as u8) as u64) << 40 | ((((v >> 48)
        & 0xff) as u8) as u64) << 48 | ((((v >> 56) & 0xff) as u8) as u64) << 56 == v)
        by (bit_vector);
}

/// The bytes are recovered from their word: two runs of eight bytes that make the same
/// word are equal.
pub proof fn lemma_bytes_round_trip(s: Seq<u8>)
    requires
        s.len() == 8,
    ensures
        word_bytes(bytes_word(s)) == s,
{
    let (b0, b1, b2, b3) = (s[0], s[1], s[2], s[3]);
    let (b4, b5, b6, b7) = (s[4], s[5], s[6], s[7]);
    let w: u64 = (b0 as u64) | (b1 as u64) << 8 | (b2 as u64) << 16 | (b3 as u64) << 24 | (
    b4 as u64) << 32 | (b5 as u64) << 40 | (b6 as u64) << 48 | (b7 as u64) << 56;
    assert((w & 0xff) as u8 == b0 && ((w >> 8) & 0xff) as u8 == b1 && ((w >> 16) & 0xff) as u8 == b2
        && ((w >> 24) & 0xff) as u8 == b3 && ((w >> 32) & 0xff) as u8 == b4 && ((w >> 40)
        & 0xff) as u8 == b5 && ((w >> 48) & 0xff) as u8 == b6 && ((w >> 56) & 0xff) as u8 == b7)
        by (bit_vector)
        requires
            w == (b0 as u64) | (b1 as u64) << 8 | (b2 as u64) << 16 | (b3 as u64) << 24 | (
            b4 as u64) << 32 | (b5 as u64) << 40 | (b6 as u64) << 48 | (b7 as u64) << 56,
    ;
    assert(word_bytes(bytes_word(s)) =~= s);
}

/// What is read back after a word has been stored.
pub proof fn lemma_put_word(m: Map<int, u8>, at: int, v: u64)
    requires
        accessible(m, at, 8),
    ensures
        word_at(put_word(m, at, v), at) == v,
{
    lemma_word_round_trip(v);
    assert(span_of(put_word(m, at, v), at, 8) =~= word_bytes(v));
}

/// A word depends on its own eight bytes alone.
pub proof fn lemma_word_frame(m1: Map<int, u8>, m2: Map<int, u8>, at: int)
    requires
        forall|a: int| at <= a < at + 8 ==> m1[a] == m2[a],
    ensures
        word_at(m1, at) == word_at(m2, at),
{
    assert(span_of(m1, at, 8) =~= span_of(m2, at, 8));
}

/// Writes `n` copies of `b` from `addr` on.
pub fn fill<M: Memory>(mem: &mut M, addr: usize, n: usize, b: u8)
    requires
        addr + n <= usize::MAX + 1,
        accessible(old(mem).view(), addr as int, n as int),
    ensures
        final(mem).view() == overlay(old(mem).view(), addr as int, repeated(b, n as int)),
{
    let mut i: usize = 0;
    assert(mem.view() =~= overlay(old(mem).view(), addr as int, repeated(b, 0)));
    while i < n
        invariant
            i <= n,
            addr + n <= usize::MAX + 1,
            accessible(old(mem).view(), addr as int, n as int),
            mem.view() == overlay(old(mem).view(), addr as int, repeated(b, i as int)),
        decreases n - i,
    {
        mem.store(addr + i, b);
        i = i + 1;
        assert(mem.view() =~= overlay(old(mem).view(), addr as int, repeated(b, i as int)));
    }
}

/// Copies `n` bytes from `src` to `dst`, which do not overlap.
pub fn copy<M: Memory>(mem: &mut M, src: usize, dst: usize, n: usize)
    requires
        src + n <= usize::MAX + 1,
        dst + n <= usize::MAX + 1,
        src + n <= dst || dst + n <= src,
        accessible(old(mem).view(), src as int, n as int),
        accessible(old(mem).view(), dst as int, n as int),
    ensures
        final(mem).view() == overlay(
            old(mem).view(),
            dst as int,
            span_of(old(mem).view(), src as int, n as int),
        ),
{
    let mut i: usize = 0;
    assert(mem.view() =~= overlay(old(mem).view(), dst as int, span_of(old(mem).view(), src as int, 0)));
    while i < n
        invariant
            i <= n,
            src + n <= usize::MAX + 1,
            dst + n <= usize::MAX + 1,
            src + n <= dst || dst + n <= src,
            accessible(old(mem).view(), src as int, n as int),
            accessible(old(mem).view(), dst as int, n as int),
            mem.view() == overlay(
                old(mem).view(),
                dst as int,
                span_of(old(mem).view(), src as int, i as int),
            ),
        decreases n - i,
    {
        let b: u8 = mem.load(src + i);
        mem.store(dst + i, b);
        i = i + 1;
        assert(mem.view() =~= overlay(
            old(mem).view(),
            dst as int,
            span_of(old(mem).view(), src as int, i as int),
        ));
    }
}

/// Reads the word stored at `addr`.
pub fn load_word<M: Memory>(mem: &M, addr: usize) -> (v: u64)
    requires
        addr + 8 <= usize::MAX + 1,
        accessible(mem.view(), addr as int, 8),
    ensures
        v == word_at(mem.view(), addr as int),
{
    let b0: u8 = mem.load(addr);
    let b1: u8 = mem.load(addr + 1);
    let b2: u8 = mem.load(addr + 2);
    let b3: u8 = mem.load(addr + 3);
    let b4: u8 = mem.load(addr + 4);
    let b5: u8 = mem.load(addr + 5);
    let b6: u8 = mem.load(addr + 6);
    let b7: u8 = mem.load(addr + 7);
    (b0 as u64) | (b1 as u64) << 8 | (b2 as u64) << 16 | (b3 as u64) << 24 | (b4 as u64) << 32 | (
    b5 as u64) << 40 | (b6 as u64) << 48 | (b7 as u64) << 56
}

/// Stores the word `v` at `addr`.
pub fn store_word<M: Memory>(mem: &mut M, addr: usize, v: u64)
    requires
        addr + 8 <= usize::MAX + 1,
        accessible(old(mem).view(), addr as int, 8),
    ensures
        final(mem).view() == put_word(old(mem).view(), addr as int, v),
{
    mem.store(addr, (v & 0xff) as u8);
    mem.store(addr + 1, ((v >> 8) & 0xff) as u8);
    mem.store(addr + 2, ((v >> 16) & 0xff) as u8);
    mem.store(addr + 3, ((v >> 24) & 0xff) as u8);
    mem.store(addr + 4, ((v >> 32) & 0xff) as u8);
    mem.store(addr + 5, ((v >> 40) & 0xff) as u8);
    mem.store(addr + 6, ((v >> 48) & 0xff) as u8);
    mem.store(addr + 7, ((v >> 56) & 0xff) as u8);
    assert(mem.view() =~= put_word(old(mem).view(), addr as int, v));
}

/// A run of bytes that starts at a given address.
pub struct ByteMemory {
    base: usize,
    bytes: Vec<u8>,
}

impl ByteMemory {
    #[verifier::type_invariant]
    closed spec fn inv(&self) -> bool {
        self.base + self.bytes@.len() <= usize::MAX + 1
    }

    /// `len` zero bytes from address `base` on.
    pub fn zeroed(base: usize, len: usize) -> (r: Self)
        requires
            base + len <= usize::MAX + 1,
        ensures
            forall|a: int| r.view().contains_key(a) <==> base <= a < base + len,
            forall|a: int| base <= a < base + len ==> r.view()[a] == 0,
    {
        let bytes: Vec<u8> = vec![0u8; len];
        ByteMemory { base, bytes }
    }
}

impl Memory for ByteMemory {
    closed spec fn view(&self) -> Map<int, u8> {
        Map::new(
            |a: int| self.base <= a < self.base + self.bytes@.len(),
            |a: int| self.bytes@[a - self.base],
        )
    }

    fn load(&self, addr: usize) -> (b: u8) {
        self.bytes[addr - self.base]
    }

    fn store(&mut self, addr: usize, b: u8) {
        proof {
            use_type_invariant(&*self);
        }
        let i: usize = addr - self.base;
        let mut bytes: Vec<u8> = Vec::new();
        core::mem::swap(&mut bytes, &mut self.bytes);
        bytes[i] = b;
        self.bytes = bytes;
        assert(self.view() =~= old(self).view().insert(addr as int, b));
    }
}

} // verus!
