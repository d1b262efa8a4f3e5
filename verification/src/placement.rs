//! Blocks that a wrapper places inside larger blocks of the allocator it wraps.

use crate::allocator;
use crate::allocator::{Block, Grant};
use vstd::prelude::*;

verus! {

/// Every block lies in a block of `inner`, no two of them in the same one. `roots` says
/// where the outer block of each starts.
pub open spec fn placed(
    live: Map<int, Grant>,
    roots: Map<int, int>,
    inner: Map<int, Grant>,
) -> bool {
    &&& forall|p: int| #[trigger]
        live.contains_key(p) ==> {
            &&& inner.contains_key(roots[p])
            &&& roots[p] <= p
            &&& p + live[p].len <= roots[p] + inner[roots[p]].len
        }
    &&& forall|p: int, r: int| #[trigger]
        live.contains_key(p) && #[trigger] live.contains_key(r) && p != r ==> roots[p] != roots[r]
}

/// Whether `a` lies in the outer block of the block at `p`.
pub open spec fn in_share(
    roots: Map<int, int>,
    inner: Map<int, Grant>,
    p: int,
    a: int,
) -> bool {
    roots[p] <= a < roots[p] + inner[roots[p]].len
}

/// Blocks that lie in separate outer blocks do not overlap, and what lies in an outer block
/// beside its own block lies in no block.
pub proof fn lemma_placed(live: Map<int, Grant>, roots: Map<int, int>, inner: Map<int, Grant>)
    requires
        placed(live, roots, inner),
        allocator::apart(inner),
    ensures
        allocator::apart(live),
        forall|a: int| allocator::in_blocks(live, a) ==> allocator::in_blocks(inner, a),
        forall|p: int, a: int| #[trigger]
            live.contains_key(p) && #[trigger] in_share(roots, inner, p, a) && !(p <= a < p
                + live[p].len) ==> !allocator::in_blocks(live, a),
        forall|p: int, a: int| #[trigger]
            live.contains_key(p) && #[trigger] in_share(roots, inner, p, a)
                ==> !allocator::in_blocks(live.remove(p), a),
        forall|p: int, r: int, a: int|
            live.contains_key(p) && live.contains_key(r) && p != r && #[trigger] in_share(
                roots,
                inner,
                p,
                a,
            ) ==> !#[trigger] in_share(roots, inner, r, a),
{
    assert forall|p: int, r: int| #[trigger]
        live.contains_key(p) && #[trigger] live.contains_key(r) && p != r implies roots[p]
        + inner[roots[p]].len <= roots[r] || roots[r] + inner[roots[r]].len <= roots[p] by {
        assert(inner.contains_key(roots[p]));
        assert(inner.contains_key(roots[r]));
    }
    assert forall|a: int| allocator::in_blocks(live, a) implies allocator::in_blocks(inner, a) by {
        let r = choose|r: int| #[trigger] live.contains_key(r) && r <= a < r + live[r].len;
        assert(inner.contains_key(roots[r]));
    }
}

/// Taking out a block and its outer block leaves the others placed.
pub proof fn lemma_placed_free(
    live: Map<int, Grant>,
    roots: Map<int, int>,
    inner: Map<int, Grant>,
    p: int,
)
    requires
        placed(live, roots, inner),
        live.contains_key(p),
    ensures
        placed(live.remove(p), roots, inner.remove(roots[p])),
        forall|r: int| #[trigger]
            live.remove(p).contains_key(r) ==> inner.remove(roots[p]).contains_key(roots[r]),
{
}

/// Adding a block inside a new outer block leaves the others placed.
pub proof fn lemma_placed_issue(
    live: Map<int, Grant>,
    roots: Map<int, int>,
    inner: Map<int, Grant>,
    outer: Block,
    outer_grant: Grant,
    p: int,
    grant: Grant,
)
    requires
        placed(live, roots, inner),
        allocator::apart(inner),
        forall|q: int| #[trigger] inner.contains_key(q) ==> inner[q].len > 0,
        forall|r: int| #[trigger] live.contains_key(r) ==> live[r].len > 0,
        allocator::clear_of(inner, outer.addr as int, outer.len as int),
        outer_grant.len == outer.len,
        grant.len > 0,
        outer.addr <= p,
        p + grant.len <= outer.addr + outer.len,
    ensures
        !live.contains_key(p),
        !inner.contains_key(outer.addr as int),
        placed(
            live.insert(p, grant),
            roots.insert(p, outer.addr as int),
            inner.insert(outer.addr as int, outer_grant),
        ),
        allocator::clear_of(live, p, grant.len as int),
        forall|r: int| #[trigger]
            live.contains_key(r) ==> roots[r] + inner[roots[r]].len <= outer.addr || outer.addr
                + outer.len <= roots[r],
{
    assert(!inner.contains_key(outer.addr as int));
    assert forall|r: int| #[trigger] live.contains_key(r) implies roots[r] + inner[roots[r]].len
        <= outer.addr || outer.addr + outer.len <= roots[r] by {
        assert(inner.contains_key(roots[r]));
    }
}

} // verus!
