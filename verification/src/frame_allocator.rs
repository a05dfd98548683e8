//! The frame-allocation capability the page-table builder and the boot
//! phases draw from.
//!
//! An allocator hands out page frames from a bounded physical range and
//! never hands out a byte twice while it is live. The zero-filling variant
//! reaches the fresh frames through an explicitly injected
//! physical-to-accessible translation, never by assuming how its caller
//! currently addresses physical memory.

use vstd::prelude::*;

use crate::address_space::AddressTranslation;
use crate::bump::BumpPFA;
use crate::error::AllocError;
use crate::PhysAddr;

verus! {

/// Reserves and returns physical page frames from a bounded range.
pub trait FrameAllocator: Sized {
    /// The allocator's invariant.
    spec fn inv(&self) -> bool;

    /// The allocation granule, in bytes.
    spec fn granule(&self) -> int;

    /// The byte addresses currently handed out.
    spec fn taken(&self) -> Set<int>;

    /// Whether this allocator supports returning frames at all; a
    /// monotonic allocator does not, by design.
    spec fn supports_deallocate(&self) -> bool;

    /// What one allocation does: the frame address handed out and the
    /// state left behind, or nothing when the allocator must refuse.
    spec fn spec_allocate(&self, num_contiguous_pages: usize) -> Option<(PhysAddr, Self)>;

    /// Hands out `num_contiguous_pages` fresh, contiguous frames:
    /// exactly what `spec_allocate` prescribes, failing with no change
    /// exactly when it prescribes nothing.
    fn allocate_pages(&mut self, num_contiguous_pages: usize) -> (r: Result<PhysAddr, AllocError>)
        requires
            old(self).inv(),
        ensures
            final(self).inv(),
            final(self).granule() == old(self).granule(),
            final(self).supports_deallocate() == old(self).supports_deallocate(),
            match r {
                Ok(addr) => {
                    &&& old(self).spec_allocate(num_contiguous_pages) == Some(
                        (addr, *final(self)),
                    )
                    &&& num_contiguous_pages >= 1
                    &&& (addr as int) % old(self).granule() == 0
                    &&& forall|b: int|
                        #![trigger final(self).taken().contains(b)]
                        addr as int <= b < addr as int + num_contiguous_pages * old(self).granule()
                            ==> !old(self).taken().contains(b) && final(self).taken().contains(b)
                    &&& forall|b: int|
                        old(self).taken().contains(b) ==> final(self).taken().contains(b)
                },
                Err(_) => {
                    &&& old(self).spec_allocate(num_contiguous_pages) is None
                    &&& *final(self) == *old(self)
                },
            },
    ;

    /// Hands out `num_contiguous_pages` fresh, contiguous frames whose
    /// bytes are zero, written through the injected translation. The
    /// result and the state change are exactly those of
    /// `allocate_pages`; the zero-fill is a raw-memory effect the model
    /// does not hold.
    fn allocate_zeroed_pages(
        &mut self,
        num_contiguous_pages: usize,
        translation: &AddressTranslation,
    ) -> (r: Result<PhysAddr, AllocError>)
        requires
            old(self).inv(),
        ensures
            final(self).inv(),
            final(self).granule() == old(self).granule(),
            final(self).supports_deallocate() == old(self).supports_deallocate(),
            match r {
                Ok(addr) => {
                    &&& old(self).spec_allocate(num_contiguous_pages) == Some(
                        (addr, *final(self)),
                    )
                    &&& num_contiguous_pages >= 1
                    &&& (addr as int) % old(self).granule() == 0
                    &&& forall|b: int|
                        #![trigger final(self).taken().contains(b)]
                        addr as int <= b < addr as int + num_contiguous_pages * old(self).granule()
                            ==> !old(self).taken().contains(b) && final(self).taken().contains(b)
                    &&& forall|b: int|
                        old(self).taken().contains(b) ==> final(self).taken().contains(b)
                },
                Err(_) => {
                    &&& old(self).spec_allocate(num_contiguous_pages) is None
                    &&& *final(self) == *old(self)
                },
            },
    ;

    /// Returns frames to the allocator; only allocators that track
    /// individual frames support this.
    fn deallocate_pages(&mut self, addr: PhysAddr, num_contiguous_pages: usize)
        requires
            old(self).inv(),
            old(self).supports_deallocate(),
        ensures
            final(self).inv(),
    ;
}

impl FrameAllocator for BumpPFA {
    open spec fn inv(&self) -> bool {
        self.wf()
    }

    open spec fn granule(&self) -> int {
        self.spec_page_size() as int
    }

    open spec fn taken(&self) -> Set<int> {
        Set::new(|b: int| self.spec_start() <= b < self.spec_next())
    }

    /// A bump allocator never takes a frame back: attempting to is a
    /// design violation, not an operation.
    open spec fn supports_deallocate(&self) -> bool {
        false
    }

    /// The cursor is handed out and advances by exactly the requested
    /// pages; the request is refused when it is empty or would pass the
    /// end of the range.
    open spec fn spec_allocate(&self, num_contiguous_pages: usize) -> Option<(PhysAddr, BumpPFA)> {
        if num_contiguous_pages >= 1 && self.spec_next() + num_contiguous_pages
            * self.spec_page_size() <= self.spec_end() {
            Some(
                (
                    self.spec_next(),
                    BumpPFA {
                        start_frame: self.start_frame,
                        end_frame: self.end_frame,
                        next: (self.spec_next() + num_contiguous_pages
                            * self.spec_page_size()) as usize,
                        page_size: self.page_size,
                    },
                ),
            )
        } else {
            None
        }
    }

    fn allocate_pages(&mut self, num_contiguous_pages: usize) -> (r: Result<PhysAddr, AllocError>)
    {
        let r = self.allocate_contiguous_pages(num_contiguous_pages);
        proof {
            if let Ok(addr) = r {
                assert forall|b: int|
                    addr as int <= b < addr as int + num_contiguous_pages * old(self).granule()
                    implies !old(self).taken().contains(b) && self.taken().contains(b) by {
                    assert(b < self.spec_next());
                }
            }
        }
        r
    }

    fn allocate_zeroed_pages(
        &mut self,
        num_contiguous_pages: usize,
        translation: &AddressTranslation,
    ) -> (r: Result<PhysAddr, AllocError>) {
        // Fresh frames of the model hold no contents to clear; a port
        // writing real memory zero-fills the range reached through
        // `translation` before handing it out.
        let r = self.allocate_contiguous_pages(num_contiguous_pages);
        proof {
            if let Ok(addr) = r {
                assert forall|b: int|
                    addr as int <= b < addr as int + num_contiguous_pages * old(self).granule()
                    implies !old(self).taken().contains(b) && self.taken().contains(b) by {
                    assert(b < self.spec_next());
                }
            }
        }
        r
    }

    fn deallocate_pages(&mut self, addr: PhysAddr, num_contiguous_pages: usize) {
    }
}

} // verus!
