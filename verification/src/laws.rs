//! The laws the arena obeys, stated over the model that the methods' contracts
//! use, so that a reader sees them in one place.

use vstd::prelude::*;
use crate::arena::MemoryArena;
use crate::arena::TemporaryRegion;

verus! {

/// Blocks handed out by two successful allocations never overlap: a block ends
/// at or before the cursor it left behind, the cursor never moves backwards
/// between successful allocations, and a later block begins at or after the
/// cursor it found.
pub proof fn lemma_alloc_no_overlap(
    off1: int,
    size1: int,
    used_after_first: int,
    used_before_second: int,
    off2: int,
)
    requires
        off1 + size1 <= used_after_first,
        used_after_first <= used_before_second,
        used_before_second <= off2,
    ensures
        off1 + size1 <= off2,
{
}

/// Rolling back a temporary region restores the remaining capacity to exactly
/// what it was when the region was opened, however much was allocated in
/// between: opening captured the cursor in the checkpoint, and rollback puts
/// the cursor back to the checkpoint.
pub proof fn lemma_rollback_restores_capacity(
    at_open: MemoryArena,
    region: TemporaryRegion,
    after_rollback: MemoryArena,
)
    requires
        region.spec_checkpoint() == at_open.spec_used(),
        after_rollback.spec_used() == region.spec_checkpoint(),
        after_rollback.spec_capacity() == at_open.spec_capacity(),
    ensures
        after_rollback.spec_remaining() == at_open.spec_remaining(),
{
}

/// Committing a temporary region keeps every allocation made inside it: if the
/// allocations since the region was opened advanced the cursor by `total`
/// bytes, the remaining capacity after the commit is down by exactly `total`,
/// because commit leaves the cursor where it is.
pub proof fn lemma_commit_preserves_allocations(
    at_open: MemoryArena,
    before_commit: MemoryArena,
    after_commit: MemoryArena,
    total: int,
)
    requires
        before_commit.spec_used() == at_open.spec_used() + total,
        before_commit.spec_capacity() == at_open.spec_capacity(),
        after_commit.spec_used() == before_commit.spec_used(),
        after_commit.spec_capacity() == before_commit.spec_capacity(),
    ensures
        after_commit.spec_remaining() == at_open.spec_remaining() - total,
{
}

/// LIFO enforcement: while a later-opened region is the top of the arena's
/// stack of open regions, an earlier-opened one is not, so `commit` and
/// `rollback` refuse it and leave the arena untouched.
pub proof fn lemma_lifo_enforcement(
    arena: MemoryArena,
    earlier: TemporaryRegion,
    later: TemporaryRegion,
)
    requires
        earlier.spec_depth() < later.spec_depth(),
        later.is_top_of(arena),
    ensures
        !earlier.is_top_of(arena),
{
}

} // verus!
