//! The memory allocator.
//!
//! A bump allocator over the guest's linear memory. `allocate` hands out
//! 4-byte-aligned offsets and never reuses a byte: regions returned by
//! distinct calls are pairwise disjoint for the life of the instance (see
//! `lemma_allocations_disjoint`). There is no free operation — the whole
//! memory is discarded when the host tears down or resets the instance.
//!
//! An allocation that cannot be satisfied is not reported as an ordinary
//! status: it raises the trap barrier, because a failed allocation mid-call
//! is not locally recoverable.

use vstd::prelude::*;
use crate::trap::{Fault, Trap};

verus! {

/// The alignment every returned offset respects.
pub const ALLOC_ALIGN: usize = 4;

/// Rounds `size` up to the next multiple of the allocator's alignment.
pub open spec fn round_up4(size: nat) -> nat {
    (size + (4 - size % 4) % 4) as nat
}

/// A region of linear memory: offset and requested size in bytes.
pub open spec fn region_disjoint(a: (usize, usize), b: (usize, usize)) -> bool {
    a.0 + a.1 <= b.0 || b.0 + b.1 <= a.0
}

pub struct BumpAllocator {
    next: usize,
    capacity: usize,
    regions: Ghost<Seq<(usize, usize)>>,
}

impl BumpAllocator {
    /// Total number of usable bytes of linear memory.
    pub closed spec fn capacity(self) -> nat {
        self.capacity as nat
    }

    /// Offset of the first byte no allocation has touched yet.
    pub closed spec fn allocated_end(self) -> nat {
        self.next as nat
    }

    /// Bytes still available to future allocations.
    pub open spec fn free_space(self) -> nat {
        (self.capacity() - self.allocated_end()) as nat
    }

    /// Every region handed out so far, in order of allocation.
    pub closed spec fn regions(self) -> Seq<(usize, usize)> {
        self.regions@
    }

    /// The allocator's invariant: the bump pointer stays aligned and in
    /// bounds, and the regions handed out sit aligned, below the bump
    /// pointer, in allocation order without overlap.
    pub closed spec fn wf(self) -> bool {
        &&& self.capacity % 4 == 0
        &&& self.next % 4 == 0
        &&& self.next <= self.capacity
        &&& forall|i: int|
            0 <= i < self.regions@.len() ==> (#[trigger] self.regions@[i]).0 % 4 == 0
                && self.regions@[i].0 + self.regions@[i].1 <= self.next
        &&& forall|i: int, j: int|
            0 <= i < j < self.regions@.len() ==> (#[trigger] self.regions@[i]).0
                + self.regions@[i].1 <= (#[trigger] self.regions@[j]).0
    }

    /// A fresh allocator over `capacity` bytes of linear memory; a trailing
    /// fragment that cannot hold an aligned allocation is given up.
    pub fn new(capacity: usize) -> (a: Self)
        ensures
            a.wf(),
            a.capacity() == capacity - capacity % 4,
            a.allocated_end() == 0,
            a.regions() == Seq::<(usize, usize)>::empty(),
    {
        BumpAllocator { next: 0, capacity: capacity - capacity % 4, regions: Ghost(Seq::empty()) }
    }

    /// Reserves `size` bytes and returns their offset. The offset is 4-byte
    /// aligned and the region lies wholly inside the memory, beyond every
    /// region handed out before. Exactly the requests that exceed the free
    /// space fail, and a failure raises the trap barrier and changes
    /// nothing.
    pub fn allocate(&mut self, size: usize) -> (r: Result<usize, Trap>)
        requires
            old(self).wf(),
        ensures
            final(self).wf(),
            final(self).capacity() == old(self).capacity(),
            match r {
                Ok(offset) => {
                    &&& size <= old(self).free_space()
                    &&& offset == old(self).allocated_end()
                    &&& offset % 4 == 0
                    &&& offset + size <= final(self).allocated_end()
                    &&& final(self).allocated_end() == old(self).allocated_end() + round_up4(
                        size as nat,
                    )
                    &&& final(self).regions() == old(self).regions().push((offset, size))
                },
                Err(t) => {
                    &&& size > old(self).free_space()
                    &&& t.cause == Fault::AllocationFailure
                    &&& *final(self) == *old(self)
                },
            },
    {
        let avail = self.capacity - self.next;
        if size > avail {
            return Err(crate::trap::panic(Fault::AllocationFailure));
        }
        let offset = self.next;
        let pad = (4 - (size % 4)) % 4;
        proof {
            assert(avail % 4 == 0) by (nonlinear_arith)
                requires
                    self.capacity % 4 == 0,
                    self.next % 4 == 0,
                    self.next <= self.capacity,
                    avail == self.capacity - self.next,
            ;
            assert(size + pad <= avail && (size + pad) % 4 == 0) by (nonlinear_arith)
                requires
                    avail % 4 == 0,
                    size <= avail,
                    pad == ((4 - size % 4) as int) % 4,
            ;
            assert((self.next + size + pad) % 4 == 0) by (nonlinear_arith)
                requires
                    self.next % 4 == 0,
                    (size + pad) % 4 == 0,
            ;
        }
        self.next = self.next + size + pad;
        proof {
            self.regions@ = self.regions@.push((offset, size));
        }
        Ok(offset)
    }

    /// Bounds that follow from the invariant, stated for callers that
    /// cannot see its body: the bump pointer never passes the capacity, and
    /// every region lies below the bump pointer.
    pub proof fn lemma_wf_bounds(self)
        requires
            self.wf(),
        ensures
            self.allocated_end() <= self.capacity(),
            forall|i: int|
                0 <= i < self.regions().len() ==> (#[trigger] self.regions()[i]).0
                    + self.regions()[i].1 <= self.allocated_end(),
    {
    }

    /// Allocation never hands the same byte out twice: any two regions
    /// returned by distinct calls on one instance are disjoint.
    pub proof fn lemma_allocations_disjoint(self, i: int, j: int)
        requires
            self.wf(),
            0 <= i < self.regions().len(),
            0 <= j < self.regions().len(),
            i != j,
        ensures
            region_disjoint(self.regions()[i], self.regions()[j]),
    {
    }
}

} // verus!
