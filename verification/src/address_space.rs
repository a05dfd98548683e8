//! The dual addressing mode of the bring-up sequence.
//!
//! Before translation is enabled, code addresses physical memory directly;
//! after, it reaches it through a linear map at a fixed virtual offset. The
//! translation in force is injected explicitly into every allocator and
//! page-table constructor, never assumed.

use vstd::prelude::*;

use crate::descriptor::{SIZE_4KIB, PHYS_LIMIT, same_page, de_valid, de_table};
use crate::error::AddressSpaceError;
use crate::memory_attribute::MemoryAttributes;
use crate::page_table::{PageTable, lookup, path_entry, reached};

verus! {

/// How physical addresses are turned into addresses the running code can
/// dereference.
#[derive(Clone, Copy, PartialEq, Eq, Structural, Debug)]
pub enum AddressTranslation {
    /// Physical addresses are used unchanged: the state before the MMU is
    /// enabled, or under an identity mapping.
    Identity,
    /// Physical memory is reachable at this fixed virtual offset: the state
    /// once the higher-half linear map is live.
    LinearOffset(u64),
}

impl AddressTranslation {
    /// The address at which the running code reaches physical address
    /// `phys` under this translation.
    pub open spec fn spec_translate(self, phys: u64) -> u64 {
        match self {
            AddressTranslation::Identity => phys,
            AddressTranslation::LinearOffset(off) => (phys + off) as u64,
        }
    }

    /// Applies the translation to a physical address.
    pub fn translate(&self, phys: u64) -> (r: u64)
        requires
            match *self {
                AddressTranslation::Identity => true,
                AddressTranslation::LinearOffset(off) => phys + off <= u64::MAX,
            },
        ensures
            r == self.spec_translate(phys),
    {
        match self {
            AddressTranslation::Identity => phys,
            AddressTranslation::LinearOffset(off) => phys + *off,
        }
    }
}

/// The capability a live address space offers: mapping and unmapping
/// ranges at the best granule, and translating addresses — decoupling
/// callers from the concrete table format. Installing the table into the
/// hardware walker is the platform layer's step, driven by the bring-up
/// plan.
pub trait AddressSpace: Sized {
    /// The address space's invariant.
    spec fn as_inv(&self) -> bool;

    /// What the hardware walker would return for an address under this
    /// space.
    spec fn resolve(&self, virt: u64) -> Option<u64>;

    /// Something already placed stands in the way of mapping `virt`: a
    /// live slot at some granule on its walk.
    spec fn occupied_slot(&self, virt: u64) -> bool;

    /// The space's backing allocator cannot supply one more table.
    spec fn exhausted(&self) -> bool;

    /// The shape at `virt` does not match the granule an unmapping of it
    /// would select.
    spec fn granule_mismatch(&self, virt: u64) -> bool;

    /// Maps a range, choosing the largest granule the alignment and the
    /// remaining span allow at each step. Only pages of the range change;
    /// each error is permitted only on its stated ground.
    fn map_range(
        &mut self,
        virt_start: u64,
        phys_start: u64,
        size: u64,
        attr: MemoryAttributes,
    ) -> (r: Result<(), AddressSpaceError>)
        requires
            old(self).as_inv(),
            phys_start + size <= PHYS_LIMIT,
            virt_start + size <= u64::MAX,
            size <= 0x7FFF_FFFF_FFFF,
        ensures
            final(self).as_inv(),
            match r {
                Ok(()) => {
                    &&& forall|va: u64|
                        virt_start <= va < virt_start + size ==> final(self).resolve(va) == Some(
                            (phys_start + (va - virt_start)) as u64,
                        )
                    &&& forall|va: u64|
                        (forall|w: u64|
                            virt_start <= w < virt_start + size ==> !(#[trigger] same_page(
                                va,
                                w,
                            ))) ==> final(self).resolve(va) == old(self).resolve(va)
                },
                Err(AddressSpaceError::Misaligned) => !(virt_start % SIZE_4KIB == 0 && phys_start
                    % SIZE_4KIB == 0 && size % SIZE_4KIB == 0),
                Err(AddressSpaceError::AlreadyMapped) => exists|w: u64|
                    virt_start <= w < virt_start + size && #[trigger] final(self).occupied_slot(
                        w,
                    ),
                Err(AddressSpaceError::AllocationExhausted) => final(self).exhausted(),
                _ => false,
            },
    ;

    /// Removes a range mapped with the same granule selection. Only
    /// pages of the range change; each error is permitted only on its
    /// stated ground.
    fn unmap_range(&mut self, virt_start: u64, phys_start: u64, size: u64) -> (r: Result<
        (),
        AddressSpaceError,
    >)
        requires
            old(self).as_inv(),
            phys_start + size <= PHYS_LIMIT,
            virt_start + size <= u64::MAX,
            size <= 0x7FFF_FFFF_FFFF,
        ensures
            final(self).as_inv(),
            match r {
                Ok(()) => {
                    &&& forall|va: u64|
                        virt_start <= va < virt_start + size ==> final(self).resolve(va) is None
                    &&& forall|va: u64|
                        (forall|w: u64|
                            virt_start <= w < virt_start + size ==> !(#[trigger] same_page(
                                va,
                                w,
                            ))) ==> final(self).resolve(va) == old(self).resolve(va)
                },
                Err(AddressSpaceError::Misaligned) => !(virt_start % SIZE_4KIB == 0 && phys_start
                    % SIZE_4KIB == 0 && size % SIZE_4KIB == 0),
                Err(AddressSpaceError::GranuleUnsupported) => exists|w: u64|
                    virt_start <= w < virt_start + size && #[trigger] final(self).granule_mismatch(
                        w,
                    ),
                Err(AddressSpaceError::TranslationNotFound) => exists|w: u64|
                    virt_start <= w < virt_start + size && #[trigger] final(self).resolve(w)
                        != Some((phys_start + (w - virt_start)) as u64),
                _ => false,
            },
    ;

    /// Resolves one address, or reports that nothing maps it.
    fn translate(&self, virt_addr: u64) -> (r: Result<u64, AddressSpaceError>)
        requires
            self.as_inv(),
        ensures
            r == match self.resolve(virt_addr) {
                Some(p) => Ok::<u64, AddressSpaceError>(p),
                None => Err::<u64, AddressSpaceError>(AddressSpaceError::TranslationNotFound),
            },
    ;
}

impl AddressSpace for PageTable {
    open spec fn as_inv(&self) -> bool {
        self.wf()
    }

    open spec fn resolve(&self, virt: u64) -> Option<u64> {
        lookup(self.ts(), virt)
    }

    open spec fn occupied_slot(&self, virt: u64) -> bool {
        !self.l1_slot_free(virt) || self.path_blocked_2m(virt) || self.path_blocked_4k(virt)
    }

    open spec fn exhausted(&self) -> bool {
        self.allocator.spec_next() == self.allocator.spec_end()
    }

    open spec fn granule_mismatch(&self, virt: u64) -> bool {
        ||| self.region_granule_mismatch_4k(virt)
        ||| self.region_granule_mismatch_2m(virt)
        ||| (reached(self.ts(), virt, 1) is Some && de_valid(path_entry(self.ts(), virt, 1))
            && de_table(path_entry(self.ts(), virt, 1)))
    }

    fn map_range(
        &mut self,
        virt_start: u64,
        phys_start: u64,
        size: u64,
        attr: MemoryAttributes,
    ) -> (r: Result<(), AddressSpaceError>) {
        let r = PageTable::map_range(self, virt_start, phys_start, size, attr);
        proof {
            if r == Err::<(), AddressSpaceError>(AddressSpaceError::AlreadyMapped) {
                let w = choose|w: u64|
                    #![trigger self.l1_slot_free(w)]
                    virt_start <= w < virt_start + size && (!self.l1_slot_free(w)
                        || self.path_blocked_2m(w) || self.path_blocked_4k(w));
                assert(self.occupied_slot(w));
            }
        }
        r
    }

    fn unmap_range(&mut self, virt_start: u64, phys_start: u64, size: u64) -> (r: Result<
        (),
        AddressSpaceError,
    >) {
        let r = PageTable::unmap_range(self, virt_start, phys_start, size);
        proof {
            if r == Err::<(), AddressSpaceError>(AddressSpaceError::TranslationNotFound) {
                let w = choose|w: u64|
                    #![trigger lookup(self.ts(), w)]
                    virt_start <= w < virt_start + size && lookup(self.ts(), w) != Some(
                        (phys_start + (w - virt_start)) as u64,
                    );
                assert(self.resolve(w) != Some((phys_start + (w - virt_start)) as u64));
            }
            if r == Err::<(), AddressSpaceError>(AddressSpaceError::GranuleUnsupported) {
                let w = choose|w: u64|
                    #![trigger self.region_granule_mismatch_4k(w)]
                    virt_start <= w < virt_start + size && (self.region_granule_mismatch_4k(w)
                        || self.region_granule_mismatch_2m(w) || (reached(self.ts(), w, 1)
                        is Some && de_valid(path_entry(self.ts(), w, 1)) && de_table(
                        path_entry(self.ts(), w, 1),
                    )));
                assert(self.granule_mismatch(w));
            }
        }
        r
    }

    fn translate(&self, virt_addr: u64) -> (r: Result<u64, AddressSpaceError>) {
        self.virt_to_phys(virt_addr)
    }
}

/// The architecture seam: how a fresh address space for this platform's
/// table format is made.
pub trait Arch: Sized {
    /// The concrete address-space type this architecture builds.
    type Space: AddressSpace;

    /// Builds a fresh, empty address space over the given allocator and
    /// physical-to-accessible translation.
    fn new_address_space(
        translation: AddressTranslation,
        frame_allocator: crate::bump::BumpPFA,
    ) -> (r: Result<Self::Space, AddressSpaceError>)
        requires
            frame_allocator.wf(),
            frame_allocator.spec_end() <= PHYS_LIMIT,
        ensures
            r is Ok ==> r->Ok_0.as_inv(),
    ;
}

/// This build's architecture: the 4-level, 48-bit translation-table
/// format.
pub struct ArchImpl {}

impl Arch for ArchImpl {
    type Space = PageTable;

    fn new_address_space(
        translation: AddressTranslation,
        frame_allocator: crate::bump::BumpPFA,
    ) -> (r: Result<PageTable, AddressSpaceError>) {
        PageTable::new(translation, frame_allocator)
    }
}

} // verus!
