# forge_alloc

Composable memory allocators, written in Verus: what each allocator does is stated in its
contract and proved.

An allocator is put together from parts. A *backing* owns a run of addresses (inline storage,
a heap block, a borrowed buffer, a mapping of the operating system). A *bump arena* carves
blocks from it. *Hardening wrappers* go around either: guard words, poisoning, zeroing,
random displacement, guard pages, huge-page alignment, memory-node binding, bookkeeping kept
apart, counters, injected faults.

```rust
type Scratch = Statistics<PoisonOnFree<BumpArena<MmapBacked>>>;
```

## How it is laid out

- `src/` is the library. Every function in it is verified, but for those of `outside`.
  - `layout`, `memory`, `bits`, `bump`, `placement`: sizes and alignments, byte-addressed
    memory, the arithmetic of carving.
  - `allocator`, `fixed_range`, `os_backed`, `alloc_fault_policy`, `freelist_protection`: the
    traits. `allocator` states what every allocator keeps: blocks in use never overlap, an
    allocator never writes to a block in use, a refused request changes nothing.
  - `backing`, `bump_arena`, `hardening`, `cache_padded`, `std_compat`, `capi`, `testing`: the
    parts.
  - `os`: the system calls a part asks for, as values, and what is made of the answers.
  - `laws`: what holds of parts put together.
  - `outside`: the calls into other crates and into `std`, whose contracts are believed.
- `app/` is ordinary Rust around the library: it performs the system calls, reads and writes
  real memory, and offers the allocators to C callers and to `allocator_api2`.
- `tests/` runs the library on concrete values.

The library is built for Linux on x86-64: `outside` takes the numbers of system calls from
`libc` as that crate has them there, and states what they are. The branches of `app/sys` for
macOS and Windows are therefore out of reach.

## How to read a contract

Addresses are `usize` values, and memory is an argument: its view maps each accessible
address to the byte stored there. For an allocator `a`, `a.live()` is the map of blocks in
use, `a.outcome(layout)` the block that a request gets, `a.issued(m, layout)` and
`a.freed(m, p)` what becomes of memory, `a.verdict(m, p)` what the bookkeeping around a block
says when the block is given back, and `a.after_issue`, `a.after_return` and `a.after_reset`
what the allocator itself becomes.
