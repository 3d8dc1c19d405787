//! The arena itself: bump allocation over a fixed-capacity byte buffer, plus
//! temporary regions (checkpoints) that commit or roll back in LIFO order.

use vstd::prelude::*;
use vstd::arithmetic::div_mod::lemma_add_mod_noop;
use vstd::arithmetic::div_mod::lemma_mod_bound;
use vstd::arithmetic::div_mod::lemma_mod_self_0;
use vstd::arithmetic::div_mod::lemma_small_mod;
use vstd::pervasive::VecAdditionalExecFns;

verus! {

/// Returned by `allocate` when the request, once padded for alignment, does
/// not fit in the remaining capacity.
#[derive(Clone, Copy, Debug, PartialEq, Eq, Structural)]
pub struct OutOfMemoryError;

/// Returned by `commit` and `rollback` when the region is already closed or is
/// not the most recently opened open region of the arena.
#[derive(Clone, Copy, Debug, PartialEq, Eq, Structural)]
pub struct UsageError;

/// The smallest multiple-friendly offset at or above `used`: `used` rounded up
/// to the next multiple of `align`.
pub open spec fn align_up(used: int, align: int) -> int
    recommends
        0 <= used,
        1 <= align,
{
    if used % align == 0 {
        used
    } else {
        used + (align - used % align)
    }
}

/// `align_up` lands in `[used, used + align)` and is a multiple of `align`.
pub proof fn lemma_align_up_properties(used: int, align: int)
    requires
        0 <= used,
        1 <= align,
    ensures
        used <= align_up(used, align) < used + align,
        align_up(used, align) % align == 0,
{
    let r = used % align;
    lemma_mod_bound(used, align);
    if r != 0 {
        lemma_add_mod_noop(used, align - r, align);
        lemma_small_mod((align - r) as nat, align as nat);
        lemma_mod_self_0(align);
    }
}

/// A fixed-capacity bump allocator over a byte buffer. `used` only ever moves
/// forward, except when a temporary region is rolled back.
#[derive(Debug)]
pub struct MemoryArena {
    capacity: usize,
    base: Vec<u8>,
    used: usize,
    checkpoints: Vec<usize>,
}

/// A checkpoint of the arena's cursor. While open it grants permission to
/// either keep (commit) or reclaim (rollback) everything allocated since it
/// was opened; regions must close in reverse order of opening.
#[derive(Debug)]
pub struct TemporaryRegion {
    checkpoint_used: usize,
    depth: usize,
    closed: bool,
}

impl MemoryArena {
    /// Total byte size of the arena, fixed at construction.
    pub closed spec fn spec_capacity(self) -> usize {
        self.capacity
    }

    /// Offset of the next free byte.
    pub closed spec fn spec_used(self) -> usize {
        self.used
    }

    /// The buffer contents.
    pub closed spec fn spec_bytes(self) -> Seq<u8> {
        self.base@
    }

    /// The cursor values captured by the still-open temporary regions, oldest
    /// first.
    pub closed spec fn spec_checkpoints(self) -> Seq<usize> {
        self.checkpoints@
    }

    /// Bytes not yet handed out.
    pub open spec fn spec_remaining(self) -> int {
        self.spec_capacity() - self.spec_used()
    }

    /// The arena's invariant: the cursor stays within capacity, the buffer
    /// covers the capacity, and the open checkpoints form a non-decreasing
    /// stack below the cursor.
    pub open spec fn wf(self) -> bool {
        &&& self.spec_used() <= self.spec_capacity()
        &&& self.spec_capacity() <= self.spec_bytes().len()
        &&& forall|i: int|
            0 <= i < self.spec_checkpoints().len() ==> #[trigger] self.spec_checkpoints()[i]
                <= self.spec_used()
        &&& forall|i: int, j: int|
            0 <= i <= j < self.spec_checkpoints().len() ==> #[trigger] self.spec_checkpoints()[i]
                <= #[trigger] self.spec_checkpoints()[j]
    }

    /// Builds an arena over a caller-supplied buffer. The buffer must cover
    /// the declared capacity; the arena never zeroes it.
    pub fn new(capacity: usize, base: Vec<u8>) -> (arena: MemoryArena)
        requires
            capacity <= base.len(),
        ensures
            arena.wf(),
            arena.spec_capacity() == capacity,
            arena.spec_used() == 0,
            arena.spec_checkpoints() == Seq::<usize>::empty(),
            arena.spec_bytes() == base@,
    {
        MemoryArena { capacity, base, used: 0, checkpoints: Vec::new() }
    }

    /// How many bytes are still free: capacity minus the cursor.
    pub fn remaining_capacity(&self) -> (r: usize)
        requires
            self.wf(),
        ensures
            r == self.spec_remaining(),
    {
        self.capacity - self.used
    }

    /// Reserves `size` bytes at the next offset aligned to `align` and returns
    /// that offset, or fails without moving the cursor when the padded request
    /// does not fit. Succeeds exactly when the aligned request fits; the block
    /// begins at or after the old cursor and ends exactly at the new one, so
    /// the cursor never decreases and never passes the capacity.
    pub fn allocate(&mut self, size: usize, align: usize) -> (r: Result<usize, OutOfMemoryError>)
        requires
            old(self).wf(),
            1 <= align,
        ensures
            final(self).wf(),
            final(self).spec_capacity() == old(self).spec_capacity(),
            final(self).spec_bytes() == old(self).spec_bytes(),
            final(self).spec_checkpoints() == old(self).spec_checkpoints(),
            r is Ok <==> align_up(old(self).spec_used() as int, align as int) + size
                <= old(self).spec_capacity(),
            r matches Ok(off) ==> {
                &&& off == align_up(old(self).spec_used() as int, align as int)
                &&& off % align == 0
                &&& old(self).spec_used() <= off
                &&& final(self).spec_used() == off + size
            },
            r is Err ==> final(self).spec_used() == old(self).spec_used(),
            old(self).spec_used() <= final(self).spec_used(),
    {
        proof {
            lemma_align_up_properties(self.used as int, align as int);
        }
        let rem: usize = self.used % align;
        let pad: usize = if rem == 0 {
            0
        } else {
            align - rem
        };
        if pad > self.capacity - self.used {
            return Err(OutOfMemoryError);
        }
        let aligned: usize = self.used + pad;
        if size > self.capacity - aligned {
            return Err(OutOfMemoryError);
        }
        self.used = aligned + size;
        proof {
            let pre = *old(self);
            assert(self.spec_checkpoints() == pre.spec_checkpoints());
            assert forall|i: int| 0 <= i < self.spec_checkpoints().len() implies #[trigger] self
                .spec_checkpoints()[i] <= self.spec_used() by {
                assert(pre.spec_checkpoints()[i] <= pre.spec_used());
            }
            assert forall|i: int, j: int|
                0 <= i <= j < self.spec_checkpoints().len() implies #[trigger] self
                .spec_checkpoints()[i] <= #[trigger] self.spec_checkpoints()[j] by {
                assert(pre.spec_checkpoints()[i] <= pre.spec_checkpoints()[j]);
            }
        }
        Ok(aligned)
    }

    /// How many temporary regions are currently open.
    pub fn open_temp_count(&self) -> (n: usize)
        ensures
            n == self.spec_checkpoints().len(),
    {
        self.checkpoints.len()
    }

    /// Captures the cursor as a checkpoint and returns an open region bound to
    /// it. Nothing else about the arena changes, and the new region is the top
    /// of the stack of open regions.
    pub fn open_temporary_region(&mut self) -> (region: TemporaryRegion)
        requires
            old(self).wf(),
        ensures
            final(self).wf(),
            final(self).spec_capacity() == old(self).spec_capacity(),
            final(self).spec_used() == old(self).spec_used(),
            final(self).spec_bytes() == old(self).spec_bytes(),
            final(self).spec_checkpoints() == old(self).spec_checkpoints().push(
                old(self).spec_used(),
            ),
            region.spec_checkpoint() == old(self).spec_used(),
            region.spec_depth() == old(self).spec_checkpoints().len(),
            !region.spec_closed(),
            region.is_top_of(*final(self)),
    {
        let region = TemporaryRegion {
            checkpoint_used: self.used,
            depth: self.checkpoints.len(),
            closed: false,
        };
        self.checkpoints.push(self.used);
        proof {
            let pre = *old(self);
            let s = pre.spec_checkpoints();
            assert(self.spec_checkpoints() == s.push(pre.spec_used()));
            assert forall|i: int| 0 <= i < self.spec_checkpoints().len() implies #[trigger] self
                .spec_checkpoints()[i] <= self.spec_used() by {
                if i < s.len() {
                    assert(s[i] <= pre.spec_used());
                }
            }
            assert forall|i: int, j: int|
                0 <= i <= j < self.spec_checkpoints().len() implies #[trigger] self
                .spec_checkpoints()[i] <= #[trigger] self.spec_checkpoints()[j] by {
                if j < s.len() {
                    assert(s[i] <= s[j]);
                } else if i < s.len() {
                    assert(s[i] <= pre.spec_used());
                }
            }
        }
        region
    }

    /// Writes `data` into the buffer starting at `offset`. The whole write
    /// must land inside the allocated part of the buffer (below the cursor);
    /// bytes outside the written range, and all the accounting, are untouched.
    pub fn write_bytes(&mut self, offset: usize, data: &[u8])
        requires
            old(self).wf(),
            offset + data@.len() <= old(self).spec_used(),
        ensures
            final(self).wf(),
            final(self).spec_capacity() == old(self).spec_capacity(),
            final(self).spec_used() == old(self).spec_used(),
            final(self).spec_checkpoints() == old(self).spec_checkpoints(),
            final(self).spec_bytes().len() == old(self).spec_bytes().len(),
            forall|k: int|
                0 <= k < data@.len() ==> final(self).spec_bytes()[offset + k] == data@[k],
            forall|k: int|
                0 <= k < old(self).spec_bytes().len() && !(offset <= k < offset + data@.len())
                    ==> final(self).spec_bytes()[k] == old(self).spec_bytes()[k],
    {
        let ghost pre = *old(self);
        let mut i: usize = 0;
        while i < data.len()
            invariant
                pre.wf(),
                offset + data@.len() <= pre.spec_used(),
                i <= data@.len(),
                self.spec_capacity() == pre.spec_capacity(),
                self.spec_used() == pre.spec_used(),
                self.spec_checkpoints() == pre.spec_checkpoints(),
                self.spec_bytes().len() == pre.spec_bytes().len(),
                forall|k: int| 0 <= k < i ==> self.spec_bytes()[offset + k] == data@[k],
                forall|k: int|
                    0 <= k < pre.spec_bytes().len() && !(offset <= k < offset + i)
                        ==> self.spec_bytes()[k] == pre.spec_bytes()[k],
            decreases data@.len() - i,
        {
            self.base.set(offset + i, data[i]);
            i = i + 1;
        }
    }

    /// Reads one byte of the buffer; any offset within the capacity may be
    /// read, whether or not it is currently allocated.
    pub fn read_byte(&self, offset: usize) -> (b: u8)
        requires
            self.wf(),
            offset < self.spec_capacity(),
        ensures
            b == self.spec_bytes()[offset as int],
    {
        self.base[offset]
    }
}

impl TemporaryRegion {
    /// The arena cursor at the moment the region was opened.
    pub closed spec fn spec_checkpoint(self) -> usize {
        self.checkpoint_used
    }

    /// The region's position in the stack of regions open when it was made:
    /// how many were open before it.
    pub closed spec fn spec_depth(self) -> int {
        self.depth as int
    }

    /// Whether the region has been committed or rolled back already.
    pub closed spec fn spec_closed(self) -> bool {
        self.closed
    }

    /// The region may be closed exactly when this holds: it is still open and
    /// is the most recently opened open region of the arena.
    pub open spec fn is_top_of(self, arena: MemoryArena) -> bool {
        &&& !self.spec_closed()
        &&& self.spec_depth() + 1 == arena.spec_checkpoints().len()
        &&& arena.spec_checkpoints().last() == self.spec_checkpoint()
    }

    /// Closes the region keeping every allocation made since it was opened:
    /// the cursor stays where it is and only the checkpoint is discarded.
    /// Refused, with nothing changed, unless the region is the LIFO top.
    pub fn commit(&mut self, arena: &mut MemoryArena) -> (r: Result<(), UsageError>)
        requires
            old(arena).wf(),
        ensures
            final(arena).wf(),
            final(arena).spec_capacity() == old(arena).spec_capacity(),
            final(arena).spec_bytes() == old(arena).spec_bytes(),
            r is Ok <==> old(self).is_top_of(*old(arena)),
            r is Ok ==> {
                &&& final(self).spec_closed()
                &&& final(self).spec_checkpoint() == old(self).spec_checkpoint()
                &&& final(self).spec_depth() == old(self).spec_depth()
                &&& final(arena).spec_used() == old(arena).spec_used()
                &&& final(arena).spec_checkpoints() == old(arena).spec_checkpoints().drop_last()
            },
            r is Err ==> *final(self) == *old(self) && *final(arena) == *old(arena),
    {
        if self.is_current_top(arena) {
            self.closed = true;
            let _ = arena.checkpoints.pop();
            proof {
                lemma_drop_last_keeps_wf(*old(arena), *arena);
            }
            Ok(())
        } else {
            Err(UsageError)
        }
    }

    /// Closes the region reclaiming every allocation made since it was opened:
    /// the cursor moves back to the checkpoint, so the remaining capacity is
    /// exactly what it was when the region was opened. Refused, with nothing
    /// changed, unless the region is the LIFO top.
    pub fn rollback(&mut self, arena: &mut MemoryArena) -> (r: Result<(), UsageError>)
        requires
            old(arena).wf(),
        ensures
            final(arena).wf(),
            final(arena).spec_capacity() == old(arena).spec_capacity(),
            final(arena).spec_bytes() == old(arena).spec_bytes(),
            r is Ok <==> old(self).is_top_of(*old(arena)),
            r is Ok ==> {
                &&& final(self).spec_closed()
                &&& final(self).spec_checkpoint() == old(self).spec_checkpoint()
                &&& final(self).spec_depth() == old(self).spec_depth()
                &&& final(arena).spec_used() == old(self).spec_checkpoint()
                &&& final(arena).spec_checkpoints() == old(arena).spec_checkpoints().drop_last()
            },
            r is Err ==> *final(self) == *old(self) && *final(arena) == *old(arena),
    {
        if self.is_current_top(arena) {
            self.closed = true;
            arena.used = self.checkpoint_used;
            let _ = arena.checkpoints.pop();
            proof {
                lemma_drop_last_keeps_wf(*old(arena), *arena);
            }
            Ok(())
        } else {
            Err(UsageError)
        }
    }

    /// Runtime test of `is_top_of`: whether this region is the one that must
    /// close next.
    fn is_current_top(&self, arena: &MemoryArena) -> (b: bool)
        ensures
            b == self.is_top_of(*arena),
    {
        !self.closed && arena.checkpoints.len() >= 1 && self.depth == arena.checkpoints.len() - 1
            && arena.checkpoints[arena.checkpoints.len() - 1] == self.checkpoint_used
    }
}

/// Popping the top checkpoint preserves the arena's invariant: the remaining
/// checkpoints are still sorted and still lie at or below the cursor, which
/// may itself have moved back no further than the popped checkpoint.
proof fn lemma_drop_last_keeps_wf(pre: MemoryArena, post: MemoryArena)
    requires
        pre.wf(),
        pre.spec_checkpoints().len() >= 1,
        post.spec_checkpoints() == pre.spec_checkpoints().drop_last(),
        post.spec_capacity() == pre.spec_capacity(),
        post.spec_bytes() == pre.spec_bytes(),
        post.spec_used() == pre.spec_used() || post.spec_used() == pre.spec_checkpoints().last(),
    ensures
        post.wf(),
{
    let s = pre.spec_checkpoints();
    let n = s.len() as int;
    assert(s[n - 1] <= pre.spec_used());
    assert forall|i: int| 0 <= i < post.spec_checkpoints().len() implies #[trigger] post
        .spec_checkpoints()[i] <= post.spec_used() by {
        assert(s[i] <= s[n - 1]);
    }
    assert forall|i: int, j: int|
        0 <= i <= j < post.spec_checkpoints().len() implies #[trigger] post.spec_checkpoints()[i]
        <= #[trigger] post.spec_checkpoints()[j] by {
        assert(s[i] <= s[j]);
    }
}

} // verus!
