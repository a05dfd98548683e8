//! Monotonic (bump) physical page-frame allocator.
//!
//! Reserves frames from a bounded physical range `[start_frame, end_frame)`
//! by advancing a cursor; individual allocations are never returned. The
//! cursor never decreases and never exceeds the end of the range.

use vstd::prelude::*;

use crate::error::AllocError;
use crate::PhysAddr;

verus! {

/// Bump page-frame allocator over `[start_frame, end_frame)`.
pub struct BumpPFA {
    pub start_frame: usize,
    pub end_frame: usize,
    pub next: usize,
    pub page_size: usize,
}

impl BumpPFA {
    pub open spec fn spec_start(self) -> usize {
        self.start_frame
    }

    pub open spec fn spec_end(self) -> usize {
        self.end_frame
    }

    pub open spec fn spec_next(self) -> usize {
        self.next
    }

    pub open spec fn spec_page_size(self) -> usize {
        self.page_size
    }

    /// Frames still available, in pages.
    pub open spec fn spec_avail(self) -> int {
        (self.end_frame - self.next) / (self.page_size as int)
    }

    /// Well-formedness: the range bounds and the cursor are page-aligned and
    /// the cursor stays within the range.
    pub open spec fn wf(self) -> bool {
        &&& self.page_size > 0
        &&& self.start_frame % self.page_size == 0
        &&& self.end_frame % self.page_size == 0
        &&& self.next % self.page_size == 0
        &&& self.start_frame <= self.next <= self.end_frame
    }

    /// Constructs an allocator over `[start_frame, end_frame)`; the bounds
    /// must be multiples of the (non-zero) page size and in order.
    pub fn new(start_frame: usize, end_frame: usize, page_size: usize) -> (r: Result<
        Self,
        (),
    >)
        ensures
            match r {
                Ok(a) => {
                    &&& page_size > 0
                    &&& start_frame % page_size == 0
                    &&& end_frame % page_size == 0
                    &&& start_frame <= end_frame
                    &&& a.wf()
                    &&& a.spec_start() == start_frame
                    &&& a.spec_end() == end_frame
                    &&& a.spec_next() == start_frame
                    &&& a.spec_page_size() == page_size
                },
                Err(()) => !(page_size > 0 && start_frame % page_size == 0 && end_frame
                    % page_size == 0 && start_frame <= end_frame),
            },
    {
        if page_size == 0 {
            return Err(());
        }
        if start_frame % page_size != 0 || end_frame % page_size != 0 {
            return Err(());
        }
        if end_frame < start_frame {
            return Err(());
        }
        Ok(Self { start_frame, end_frame, next: start_frame, page_size })
    }

    /// The range handed out so far: `[start_frame, next)`. A caller registers
    /// it in a memory map as a reserved range.
    pub fn allocated_range(&self) -> (r: (usize, usize))
        ensures
            r.0 == self.spec_start(),
            r.1 == self.spec_next(),
    {
        (self.start_frame, self.next)
    }

    /// Hands out `num_pages` contiguous frames at the cursor, or fails with
    /// no change if `num_pages` is zero or the range has too little room.
    pub fn allocate_contiguous_pages(&mut self, num_pages: usize) -> (r: Result<
        PhysAddr,
        AllocError,
    >)
        requires
            old(self).wf(),
        ensures
            final(self).wf(),
            final(self).spec_start() == old(self).spec_start(),
            final(self).spec_end() == old(self).spec_end(),
            final(self).spec_page_size() == old(self).spec_page_size(),
            match r {
                Ok(addr) => {
                    &&& num_pages >= 1
                    &&& old(self).spec_next() + num_pages * old(self).spec_page_size() <= old(
                        self,
                    ).spec_end()
                    &&& addr == old(self).spec_next()
                    &&& final(self).spec_next() == old(self).spec_next() + num_pages * old(
                        self,
                    ).spec_page_size()
                },
                Err(_) => {
                    &&& *final(self) == *old(self)
                    &&& (num_pages == 0 || old(self).spec_next() + num_pages * old(
                        self,
                    ).spec_page_size() > old(self).spec_end())
                },
            },
    {
        if num_pages == 0 {
            return Err(AllocError);
        }
        let need = match num_pages.checked_mul(self.page_size) {
            Some(n) => n,
            None => {
                return Err(AllocError);
            },
        };
        if need > self.end_frame - self.next {
            return Err(AllocError);
        }
        proof {
            let ps = self.page_size as int;
            vstd::arithmetic::div_mod::lemma_mod_multiples_vanish(
                num_pages as int,
                self.next as int,
                ps,
            );
        }
        let page = self.next;
        self.next = self.next + need;
        Ok(page)
    }
}

/// A fresh bump allocator over `[S, E)` hands out `S` on its first
/// allocation of `n >= 1` pages; a second allocation of `n` pages hands
/// out `S + n * page_size`; and the next allocation succeeds exactly
/// when it would not reach past `E`. Here `m` is the allocator after the
/// first allocation, as `allocate_contiguous_pages`' contract leaves it.
pub proof fn lemma_bump_first_allocations(a: BumpPFA, m: BumpPFA, n: usize)
    requires
        a.wf(),
        a.spec_next() == a.spec_start(),
        n >= 1,
        m.spec_start() == a.spec_start(),
        m.spec_page_size() == a.spec_page_size(),
        m.spec_end() == a.spec_end(),
        m.spec_next() == a.spec_next() + n * a.spec_page_size(),
    ensures
        a.spec_next() == a.spec_start(),
        m.spec_next() == a.spec_start() + n * a.spec_page_size(),
        (m.spec_next() + n * m.spec_page_size() <= m.spec_end()) == (a.spec_start() + n
            * a.spec_page_size() + n * a.spec_page_size() <= a.spec_end()),
{
}

} // verus!
