//! Byte-granular bump allocator over a fixed memory block, for objects
//! that live until the end of the program.

use vstd::prelude::*;

use crate::error::AllocError;

verus! {

/// `n` rounded up to the next multiple of `a`.
pub open spec fn spec_align_up(n: int, a: int) -> int {
    if n % a == 0 {
        n
    } else {
        n + (a - n % a)
    }
}

/// Allocates memory that lives for the rest of the program: once handed
/// out, a block is never reclaimed.
pub trait StaticAlloc: Sized {
    /// The allocator's invariant.
    spec fn inv(&self) -> bool;

    /// What one allocation does: the address handed out and the state
    /// left behind, or nothing when the allocator must refuse.
    spec fn spec_allocate_bytes(&self, size: usize, align: usize) -> Option<(usize, Self)>;

    /// Allocates `size` bytes aligned to `align`: exactly what
    /// `spec_allocate_bytes` prescribes, failing with no change exactly
    /// when it prescribes nothing.
    fn allocate_bytes(&mut self, size: usize, align: usize) -> (r: Result<usize, AllocError>)
        requires
            old(self).inv(),
            align >= 1,
        ensures
            final(self).inv(),
            match r {
                Ok(addr) => {
                    &&& addr as int % align as int == 0
                    &&& old(self).spec_allocate_bytes(size, align) == Some((addr, *final(self)))
                },
                Err(_) => {
                    &&& old(self).spec_allocate_bytes(size, align) is None
                    &&& *final(self) == *old(self)
                },
            },
    ;
}

/// Bump allocator over the fixed block `[mem_start, mem_start + mem_size)`.
pub struct StaticBumpAlloc {
    pub next: usize,
    pub mem_start: usize,
    pub mem_size: usize,
}

impl StaticBumpAlloc {
    pub open spec fn wf(self) -> bool {
        &&& self.mem_start <= self.next
        &&& self.next <= self.mem_start + self.mem_size
        &&& self.mem_start + self.mem_size <= usize::MAX
    }

    /// Constructs an allocator over the given block, which must be free
    /// for its exclusive use.
    pub fn new(start_addr: usize, size: usize) -> (r: Self)
        requires
            start_addr + size <= usize::MAX,
        ensures
            r.wf(),
            r.mem_start == start_addr,
            r.mem_size == size,
            r.next == start_addr,
    {
        Self { next: start_addr, mem_start: start_addr, mem_size: size }
    }

    /// Bytes of the block not yet handed out.
    pub fn remaining(&self) -> (r: usize)
        requires
            self.wf(),
        ensures
            r == self.mem_start + self.mem_size - self.next,
    {
        self.mem_start + self.mem_size - self.next
    }
}

impl StaticAlloc for StaticBumpAlloc {
    open spec fn inv(&self) -> bool {
        self.wf()
    }

    /// The block starts at the cursor aligned up, spans `size` bytes
    /// within the backing block, and the cursor advances past it; the
    /// allocation is refused exactly when that would pass the block's
    /// end.
    open spec fn spec_allocate_bytes(&self, size: usize, align: usize) -> Option<
        (usize, StaticBumpAlloc),
    > {
        let start = spec_align_up(self.next as int, align as int);
        if start + size <= self.mem_start + self.mem_size {
            Some(
                (
                    start as usize,
                    StaticBumpAlloc {
                        next: (start + size) as usize,
                        mem_start: self.mem_start,
                        mem_size: self.mem_size,
                    },
                ),
            )
        } else {
            None
        }
    }

    fn allocate_bytes(&mut self, size: usize, align: usize) -> (r: Result<usize, AllocError>) {
        // Align the cursor up, then check the block has room left.
        let rem = self.next % align;
        let pad = if rem == 0 {
            0
        } else {
            align - rem
        };
        let end = self.mem_start + self.mem_size;
        proof {
            assert(old(self).next + pad == spec_align_up(old(self).next as int, align as int));
        }
        if pad > end - self.next {
            return Err(AllocError);
        }
        let start = self.next + pad;
        if size > end - start {
            return Err(AllocError);
        }
        assert(start as int % align as int == 0) by {
            let a = align as int;
            let n = old(self).next as int;
            if n % a == 0 {
                assert(start as int == n);
            } else {
                vstd::arithmetic::div_mod::lemma_fundamental_div_mod(n, a);
                assert(start as int == n + (a - n % a));
                assert((n + (a - n % a)) % a == 0) by (nonlinear_arith)
                    requires
                        a >= 1,
                        n >= 0,
                        n == a * (n / a) + n % a,
                        0 <= n % a < a,
                ;
            }
        }
        self.next = start + size;
        Ok(start)
    }
}

} // verus!
