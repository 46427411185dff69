//! The guest instance: one span of linear memory and the bump allocator
//! that parcels it out.
//!
//! Everything here is scoped to a single call. The host gives each
//! invocation a fresh (or reset) instance, writes the call's arguments into
//! memory it obtained from `allocate`, and discards the whole memory
//! afterwards. The contracts keep the allocator and the byte contents in
//! step: bytes below the bump pointer that a write does not name are never
//! disturbed.

use vstd::prelude::*;
use crate::allocator::BumpAllocator;
use crate::balance::BALANCE_LEN;
use crate::trap::Trap;

verus! {

pub struct Guest {
    mem: Vec<u8>,
    alloc: BumpAllocator,
}

impl Guest {
    /// The bytes of linear memory.
    pub closed spec fn mem_bytes(self) -> Seq<u8> {
        self.mem@
    }

    /// The allocator's bookkeeping over that memory.
    pub closed spec fn allocator(self) -> BumpAllocator {
        self.alloc
    }

    /// Bytes the allocator can still hand out.
    pub open spec fn free_space(self) -> nat {
        self.allocator().free_space()
    }

    /// Offset of the first never-allocated byte.
    pub open spec fn allocated_end(self) -> nat {
        self.allocator().allocated_end()
    }

    /// The instance invariant: the allocator is well formed and covers
    /// exactly the linear memory.
    pub open spec fn wf(self) -> bool {
        &&& self.allocator().wf()
        &&& self.allocator().capacity() == self.mem_bytes().len()
    }

    /// A fresh instance with `size` bytes of zeroed linear memory (a
    /// trailing fragment below the allocator's alignment is given up).
    pub fn new(size: usize) -> (g: Guest)
        ensures
            g.wf(),
            g.mem_bytes().len() == size - size % 4,
            g.allocated_end() == 0,
            g.allocator().regions() == Seq::<(usize, usize)>::empty(),
            forall|i: int| 0 <= i < g.mem_bytes().len() ==> g.mem_bytes()[i] == 0,
    {
        let alloc = BumpAllocator::new(size);
        let usable = size - size % 4;
        let mut mem: Vec<u8> = Vec::new();
        let mut i: usize = 0;
        while i < usable
            invariant
                i <= usable,
                mem@.len() == i,
                forall|j: int| 0 <= j < mem@.len() ==> mem@[j] == 0,
            decreases usable - i,
        {
            mem.push(0);
            i = i + 1;
        }
        Guest { mem, alloc }
    }

    /// Size of the linear memory in bytes.
    pub fn mem_len(&self) -> (n: usize)
        ensures
            n == self.mem_bytes().len(),
    {
        self.mem.len()
    }

    /// Reserves `size` bytes of this instance's memory; the region lies in
    /// bounds and beyond everything allocated before. Exactly the requests
    /// that exceed the free space fail, with the trap barrier raised.
    pub fn allocate(&mut self, size: usize) -> (r: Result<usize, Trap>)
        requires
            old(self).wf(),
        ensures
            final(self).wf(),
            final(self).mem_bytes() == old(self).mem_bytes(),
            match r {
                Ok(offset) => {
                    &&& size <= old(self).free_space()
                    &&& offset == old(self).allocated_end()
                    &&& offset % 4 == 0
                    &&& offset + size <= final(self).allocated_end()
                    &&& final(self).allocated_end() == old(self).allocated_end()
                        + crate::allocator::round_up4(size as nat)
                    &&& offset + size <= final(self).mem_bytes().len()
                    &&& final(self).allocator().regions() == old(
                        self,
                    ).allocator().regions().push((offset, size))
                },
                Err(t) => {
                    &&& size > old(self).free_space()
                    &&& t.cause == crate::trap::Fault::AllocationFailure
                    &&& *final(self) == *old(self)
                },
            },
    {
        let r = self.alloc.allocate(size);
        proof {
            self.alloc.lemma_wf_bounds();
        }
        r
    }

    /// Copies `data` into memory at `ptr`. Only the named bytes change, and
    /// the allocator's bookkeeping is untouched.
    pub fn write_bytes(&mut self, ptr: usize, data: &Vec<u8>)
        requires
            old(self).wf(),
            ptr + data@.len() <= old(self).mem_bytes().len(),
        ensures
            final(self).wf(),
            final(self).allocator() == old(self).allocator(),
            final(self).mem_bytes().len() == old(self).mem_bytes().len(),
            forall|i: int|
                ptr <= i < ptr + data@.len() ==> final(self).mem_bytes()[i] == data@[i - ptr],
            forall|i: int|
                0 <= i < old(self).mem_bytes().len() && !(ptr <= i < ptr + data@.len())
                    ==> final(self).mem_bytes()[i] == old(self).mem_bytes()[i],
    {
        let n = data.len();
        let m = self.mem.len();
        let mut i: usize = 0;
        while i < n
            invariant
                i <= n,
                n == data@.len(),
                m == self.mem@.len(),
                ptr + n <= self.mem@.len(),
                self.alloc == old(self).alloc,
                self.mem@.len() == old(self).mem@.len(),
                forall|j: int| ptr <= j < ptr + i ==> self.mem@[j] == data@[j - ptr],
                forall|j: int|
                    0 <= j < self.mem@.len() && !(ptr <= j < ptr + i) ==> self.mem@[j] == old(
                        self,
                    ).mem@[j],
            decreases n - i,
        {
            self.mem[ptr + i] = data[i];
            i = i + 1;
        }
    }

    /// Reads `len` bytes starting at `ptr`.
    pub fn read_bytes(&self, ptr: usize, len: usize) -> (r: Vec<u8>)
        requires
            self.wf(),
            ptr + len <= self.mem_bytes().len(),
        ensures
            r@ == self.mem_bytes().subrange(ptr as int, ptr + len),
    {
        let mut r: Vec<u8> = Vec::new();
        let m = self.mem.len();
        let mut i: usize = 0;
        while i < len
            invariant
                i <= len,
                m == self.mem@.len(),
                ptr + len <= self.mem@.len(),
                r@.len() == i,
                forall|j: int| 0 <= j < i ==> r@[j] == self.mem@[ptr + j],
            decreases len - i,
        {
            let b = self.mem[ptr + i];
            r.push(b);
            i = i + 1;
        }
        proof {
            assert(r@ =~= self.mem@.subrange(ptr as int, ptr + len));
        }
        r
    }

    /// Reads the balance buffer at `ptr` as a 64-bit value; `None` when the
    /// buffer carries a value outside the 64-bit ABI range.
    pub fn decode_balance_at(&self, ptr: usize) -> (r: Option<u64>)
        requires
            self.wf(),
            ptr + BALANCE_LEN <= self.mem_bytes().len(),
        ensures
            ({
                let s = self.mem_bytes().subrange(ptr as int, ptr + BALANCE_LEN);
                match r {
                    Some(v) => v as nat == crate::balance::le_val(s),
                    None => crate::balance::le_val(s) > u64::MAX,
                }
            }),
    {
        crate::balance::decode_balance(&self.mem, ptr)
    }
}

} // verus!
