//! The MMU bring-up sequence: partition boot memory into two allocator
//! pools, build a temporary identity-mapped table and the permanent
//! higher-half kernel table, account for physical memory in a memory map,
//! and compute the hardware-enable plan.
//!
//! The temporary table identity-maps the supported physical range with
//! 1GiB device-memory blocks, so the currently executing code stays
//! addressable through the moment translation is enabled. The permanent
//! table maps the kernel image, its stack and one bookkeeping page to the
//! canonical higher half at 4KiB granularity, then linearly maps physical
//! memory with 1GiB blocks at the next 1GiB-aligned virtual address.
//! Any failure here is fatal to boot: the caller aborts, it cannot
//! recover.

use vstd::prelude::*;

use crate::address_space::AddressTranslation;
use crate::bump::BumpPFA;
use crate::descriptor::{
    SIZE_1GIB, SIZE_4KIB, PHYS_LIMIT, lemma_page_range, lemma_1gib_range,
    lemma_page_distinct_below, lemma_1gib_distinct_below,
};
use crate::error::{AddressSpaceError, AllocError};
use crate::memory_attribute::MemoryAttributes;
use crate::memory_map::{
    add_result, MemoryMap, MemoryMapEntry, MemoryMapType, MAP_CAPACITY,
};
use crate::mmu::{MmuRegisterWrite, enable_mmu, mmu_enable_plan};
use crate::page_table::{PageTable, lookup};
use crate::static_bump::StaticBumpAlloc;

verus! {

/// Bytes of the physical range each boot frame-allocator pool covers.
pub const BOOT_POOL_SIZE: usize = 0x50_0000;

/// Bytes of physical address space the temporary table identity-maps and
/// the permanent table linearly maps.
pub const DIRECT_MAP_SIZE: u64 = 8 * SIZE_1GIB;

/// The linker- and platform-provided inputs of the bring-up sequence, as
/// plain values.
pub struct BootConfig {
    /// The platform's native page size; only 4096 is supported.
    pub page_size: usize,
    pub kernel_phys_start: usize,
    pub kernel_phys_end: usize,
    /// Canonical higher-half address the kernel image is mapped at.
    pub kernel_virt_start: usize,
    /// Top of the stack (exclusive); the stack grows down.
    pub stack_phys_start: usize,
    /// Bottom of the stack.
    pub stack_phys_end: usize,
}

impl BootConfig {
    /// Virtual bytes the bring-up maps below the linear map: kernel
    /// image, stack, one bookkeeping page, plus alignment to the next
    /// 1GiB boundary and the linear map itself.
    pub open spec fn spec_span(self) -> int {
        (self.kernel_phys_end - self.kernel_phys_start) + (self.stack_phys_start
            - self.stack_phys_end) + 4096 + SIZE_1GIB + DIRECT_MAP_SIZE
    }

    /// All five region boundaries are page-aligned.
    pub open spec fn spec_aligned(self) -> bool {
        &&& self.kernel_phys_start % 4096 == 0
        &&& self.kernel_phys_end % 4096 == 0
        &&& self.kernel_virt_start % 4096 == 0
        &&& self.stack_phys_start % 4096 == 0
        &&& self.stack_phys_end % 4096 == 0
    }

    /// The kernel image or the stack spans no memory at all.
    pub open spec fn spec_empty_region(self) -> bool {
        self.kernel_phys_start == self.kernel_phys_end || self.stack_phys_start
            == self.stack_phys_end
    }
}

/// Why boot cannot proceed; every case is fatal.
#[derive(Clone, Copy, PartialEq, Eq, Structural, Debug)]
pub enum BringupError {
    /// A kernel or stack boundary is not page-aligned.
    MisalignedRegion,
    /// The kernel image or the stack spans no memory at all.
    EmptyRegion,
    /// A table construction or mapping call failed.
    AddressSpace(AddressSpaceError),
    /// A boot allocator could not be laid out or could not serve a frame.
    Allocation(AllocError),
    /// The physical memory map ran out of entries.
    MapCapacity,
}

/// Everything the bring-up hands over when control moves to the kernel.
pub struct BringupResult {
    /// Identity-mapping table for the low half; discarded after the jump.
    pub temp_table: PageTable,
    /// The kernel's live higher-half table.
    pub kernel_table: PageTable,
    /// Accounting of physical memory for the kernel's own allocators.
    pub memory_map: MemoryMap,
    /// Byte allocator over the mapped bookkeeping page.
    pub static_alloc: StaticBumpAlloc,
    /// The register writes that enable translation, in order.
    pub plan: Vec<MmuRegisterWrite>,
    /// The higher-half address control transfers to.
    pub kernel_entry: usize,
    /// Base of the linear map of physical memory.
    pub linear_map_base: u64,
}

/// One memory-map addition, or nothing if it would exceed the capacity.
pub open spec fn add_checked(s: Seq<MemoryMapEntry>, e: MemoryMapEntry) -> Option<
    Seq<MemoryMapEntry>,
> {
    if add_result(s, e).len() <= MAP_CAPACITY {
        Some(add_result(s, e))
    } else {
        None
    }
}

/// The map after the reported free regions are added in order; regions
/// that are empty or overflow the address space are passed over.
pub open spec fn after_free_regions(regions: Seq<(u64, u64)>) -> Option<Seq<MemoryMapEntry>>
    decreases regions.len(),
{
    if regions.len() == 0 {
        Some(Seq::empty())
    } else {
        match after_free_regions(regions.drop_last()) {
            None => None,
            Some(s) => {
                let (start, size) = regions.last();
                if size > 0 && start <= u64::MAX - size && start + size <= usize::MAX {
                    add_checked(
                        s,
                        MemoryMapEntry {
                            base_addr: start as usize,
                            end_addr: (start + size) as usize,
                            mem_type: MemoryMapType::FREE,
                        },
                    )
                } else {
                    Some(s)
                }
            },
        }
    }
}

/// Chains one more addition onto an earlier optional map state.
pub open spec fn then_add(s: Option<Seq<MemoryMapEntry>>, e: MemoryMapEntry) -> Option<
    Seq<MemoryMapEntry>,
> {
    match s {
        None => None,
        Some(s) => add_checked(s, e),
    }
}

/// The full memory-map accounting of the bring-up: the free regions,
/// then the parked first page, the stack, the kernel image and the
/// frames the boot allocator handed out, for the given allocator cursor.
pub open spec fn bringup_map_spec(
    cfg: BootConfig,
    regions: Seq<(u64, u64)>,
    alloc_start: usize,
    alloc_next: usize,
) -> Option<Seq<MemoryMapEntry>> {
    let s = after_free_regions(regions);
    let s = if cfg.page_size > 0 {
        then_add(
            s,
            MemoryMapEntry { base_addr: 0, end_addr: cfg.page_size, mem_type: MemoryMapType::RESERVED },
        )
    } else {
        s
    };
    let s = then_add(
        s,
        MemoryMapEntry {
            base_addr: cfg.stack_phys_end,
            end_addr: cfg.stack_phys_start,
            mem_type: MemoryMapType::STACK,
        },
    );
    let s = then_add(
        s,
        MemoryMapEntry {
            base_addr: cfg.kernel_phys_start,
            end_addr: cfg.kernel_phys_end,
            mem_type: MemoryMapType::KERNEL,
        },
    );
    if alloc_start < alloc_next {
        then_add(
            s,
            MemoryMapEntry {
                base_addr: alloc_start,
                end_addr: alloc_next,
                mem_type: MemoryMapType::RESERVED,
            },
        )
    } else {
        s
    }
}

/// Runs the bring-up sequence over the given platform inputs and the
/// free physical regions the device-tree collaborator reported.
#[verifier::rlimit(100)]
pub fn mmu_bringup(cfg: &BootConfig, free_regions: &Vec<(u64, u64)>) -> (r: Result<
    BringupResult,
    BringupError,
>)
    requires
        cfg.kernel_phys_start <= cfg.kernel_phys_end,
        cfg.stack_phys_end <= cfg.stack_phys_start,
        cfg.kernel_phys_end + 2 * BOOT_POOL_SIZE <= PHYS_LIMIT,
        cfg.stack_phys_start <= PHYS_LIMIT,
        cfg.kernel_virt_start + cfg.spec_span() <= usize::MAX,
        cfg.spec_span() <= 0x7FFF_FFFF_FFFF,
    ensures
        match r {
            Ok(res) => {
                &&& res.temp_table.wf()
                &&& res.kernel_table.wf()
                &&& res.memory_map.wf()
                &&& Some(res.memory_map.view()) == bringup_map_spec(
                    *cfg,
                    free_regions@,
                    res.kernel_table.allocator.spec_start(),
                    res.kernel_table.allocator.spec_next(),
                )
                &&& res.static_alloc.wf()
                &&& res.plan@ == mmu_enable_plan(
                    res.temp_table.ts()[0].phys,
                    res.kernel_table.ts()[0].phys,
                )
                &&& res.kernel_entry == cfg.kernel_virt_start
                &&& res.temp_table.translation == AddressTranslation::Identity
                &&& res.kernel_table.translation == AddressTranslation::LinearOffset(
                    res.linear_map_base,
                )
                &&& forall|va: u64|
                    va < DIRECT_MAP_SIZE ==> lookup(res.temp_table.ts(), va) == Some(va)
                &&& forall|va: u64|
                    cfg.kernel_virt_start <= (va as int) < cfg.kernel_virt_start + (
                    cfg.kernel_phys_end - cfg.kernel_phys_start) ==> lookup(
                        res.kernel_table.ts(),
                        va,
                    ) == Some(((cfg.kernel_phys_start + (va as int - cfg.kernel_virt_start)) as u64))
                &&& forall|va: u64|
                    cfg.kernel_virt_start + (cfg.kernel_phys_end - cfg.kernel_phys_start) <= (va
                        as int) && (va as int) < cfg.kernel_virt_start + (cfg.kernel_phys_end
                        - cfg.kernel_phys_start) + (cfg.stack_phys_start - cfg.stack_phys_end)
                        ==> lookup(res.kernel_table.ts(), va) == Some(
                        ((cfg.stack_phys_end + (va as int - cfg.kernel_virt_start - (
                        cfg.kernel_phys_end - cfg.kernel_phys_start))) as u64),
                    )
                &&& forall|va: u64|
                    res.linear_map_base <= va < res.linear_map_base + DIRECT_MAP_SIZE ==> lookup(
                        res.kernel_table.ts(),
                        va,
                    ) == Some((va - res.linear_map_base) as u64)
                &&& res.kernel_table.allocator.spec_start() == cfg.kernel_phys_end
                &&& res.kernel_table.allocator.spec_end() == cfg.kernel_phys_end + BOOT_POOL_SIZE
                &&& res.temp_table.allocator.spec_start() == cfg.kernel_phys_end + BOOT_POOL_SIZE
                &&& res.temp_table.allocator.spec_end() == cfg.kernel_phys_end + 2 * BOOT_POOL_SIZE
            },
            Err(_) => true,
        },
        r == Err::<BringupResult, BringupError>(BringupError::MisalignedRegion)
            <==> !cfg.spec_aligned(),
        r == Err::<BringupResult, BringupError>(BringupError::EmptyRegion) <==> cfg.spec_aligned()
            && cfg.spec_empty_region(),
        r == Err::<BringupResult, BringupError>(
            BringupError::AddressSpace(AddressSpaceError::PageSizeMismatch),
        ) <==> cfg.spec_aligned() && !cfg.spec_empty_region() && cfg.page_size != 4096,
{
    let page_size = cfg.page_size;
    let kps = cfg.kernel_phys_start;
    let kpe = cfg.kernel_phys_end;
    let kv = cfg.kernel_virt_start;
    let sps = cfg.stack_phys_start;
    let spe = cfg.stack_phys_end;

    if kps % SIZE_4KIB as usize != 0 || kpe % SIZE_4KIB as usize != 0 || kv % SIZE_4KIB as usize
        != 0 || sps % SIZE_4KIB as usize != 0 || spe % SIZE_4KIB as usize != 0 {
        return Err(BringupError::MisalignedRegion);
    }
    if kps == kpe || sps == spe {
        return Err(BringupError::EmptyRegion);
    }
    // A platform page size other than 4096 is rejected before any
    // allocation is made.
    if page_size != 4096 {
        return Err(BringupError::AddressSpace(AddressSpaceError::PageSizeMismatch));
    }

    // Two disjoint allocator pools above the kernel image: a permanent
    // one backing the kernel's live table, and a temporary one for the
    // identity table that is abandoned after the switch.
    let pool0_start = kpe;
    let pool0_end = pool0_start + BOOT_POOL_SIZE;
    let pool1_end = pool0_end + BOOT_POOL_SIZE;
    let mut perm_alloc = match BumpPFA::new(pool0_start, pool0_end, page_size) {
        Ok(a) => a,
        Err(()) => {
            return Err(BringupError::Allocation(AllocError));
        },
    };
    let temp_alloc = match BumpPFA::new(pool0_end, pool1_end, page_size) {
        Ok(a) => a,
        Err(()) => {
            return Err(BringupError::Allocation(AllocError));
        },
    };

    // One page of bookkeeping memory, handed over as a byte allocator.
    let static_page = match perm_alloc.allocate_contiguous_pages(1) {
        Ok(p) => p,
        Err(e) => {
            return Err(BringupError::Allocation(e));
        },
    };
    let static_alloc = StaticBumpAlloc::new(static_page, 4096);

    // The temporary table identity-maps the supported physical range
    // with 1GiB device-memory blocks.
    let mut temp_table = match PageTable::new(AddressTranslation::Identity, temp_alloc) {
        Ok(t) => t,
        Err(e) => {
            return Err(BringupError::AddressSpace(e));
        },
    };
    let mut addr: u64 = 0;
    while addr < DIRECT_MAP_SIZE
        invariant
            cfg.spec_aligned(),
            !cfg.spec_empty_region(),
            cfg.page_size == 4096,
            temp_table.wf(),
            temp_table.translation == AddressTranslation::Identity,
            temp_table.allocator.spec_start() == kpe + BOOT_POOL_SIZE,
            temp_table.allocator.spec_end() == kpe + 2 * BOOT_POOL_SIZE,
            kpe == cfg.kernel_phys_end,
            addr % SIZE_1GIB == 0,
            addr <= DIRECT_MAP_SIZE,
            forall|va: u64| va < addr ==> lookup(temp_table.ts(), va) == Some(va),
        decreases DIRECT_MAP_SIZE - addr,
    {
        let ghost prev = temp_table;
        match temp_table.map_1gib_page(addr, addr, MemoryAttributes::DeviceStronglyOrdered) {
            Ok(()) => {},
            Err(e) => {
                return Err(BringupError::AddressSpace(e));
            },
        }
        proof {
            assert forall|va: u64| va < addr + SIZE_1GIB implies lookup(temp_table.ts(), va)
                == Some(va) by {
                if va < addr {
                    lemma_1gib_distinct_below(addr, va);
                } else {
                    lemma_1gib_range(addr, va);
                }
            }
            vstd::arithmetic::div_mod::lemma_mod_multiples_vanish(
                1,
                addr as int,
                SIZE_1GIB as int,
            );
            lemma_step_bound(addr as int, DIRECT_MAP_SIZE as int, SIZE_1GIB as int);
        }
        addr = addr + SIZE_1GIB;
    }

    // The permanent table carries the kernel's higher-half mappings.
    let mut kernel_table = match PageTable::new(AddressTranslation::Identity, perm_alloc) {
        Ok(t) => t,
        Err(e) => {
            return Err(BringupError::AddressSpace(e));
        },
    };

    // Kernel image, page by page, normal-cacheable.
    let ksize = kpe - kps;
    let mut done: usize = 0;
    while done < ksize
        invariant
            cfg.spec_aligned(),
            !cfg.spec_empty_region(),
            cfg.page_size == 4096,
            kernel_table.wf(),
            kernel_table.translation == AddressTranslation::Identity,
            kernel_table.allocator.spec_start() == kpe,
            kernel_table.allocator.spec_end() == kpe + BOOT_POOL_SIZE,
            kpe == cfg.kernel_phys_end,
            done % 4096 == 0,
            done <= ksize,
            ksize == kpe - kps,
            ksize % 4096 == 0,
            kps % 4096 == 0,
            kv % 4096 == 0,
            kpe <= PHYS_LIMIT,
            kv + cfg.spec_span() <= usize::MAX,
            ksize <= cfg.spec_span(),
            cfg.spec_span() <= 0x7FFF_FFFF_FFFF,
            forall|va: u64|
                kv <= (va as int) < kv + done ==> lookup(kernel_table.ts(), va) == Some(
                    ((kps + (va as int - kv)) as u64),
                ),
        decreases ksize - done,
    {
        let v = kv + done;
        let p = kps + done;
        match kernel_table.map_4kib_page(v as u64, p as u64, MemoryAttributes::NormalCacheable) {
            Ok(()) => {},
            Err(e) => {
                return Err(BringupError::AddressSpace(e));
            },
        }
        proof {
            assert forall|va: u64| kv <= (va as int) < kv + done + 4096 implies lookup(
                kernel_table.ts(),
                va,
            ) == Some(((kps + (va as int - kv)) as u64)) by {
                if (va as int) < kv + done {
                    lemma_page_distinct_below(v as u64, va);
                } else {
                    lemma_page_range(v as u64, va);
                }
            }
            vstd::arithmetic::div_mod::lemma_mod_multiples_vanish(1, done as int, 4096);
            lemma_step_bound(done as int, ksize as int, 4096);
        }
        done = done + 4096;
    }

    // The stack, right after the image in virtual space.
    let ssize = sps - spe;
    let stack_virt = kv + ksize;
    let mut sdone: usize = 0;
    while sdone < ssize
        invariant
            cfg.spec_aligned(),
            !cfg.spec_empty_region(),
            cfg.page_size == 4096,
            kernel_table.wf(),
            kernel_table.translation == AddressTranslation::Identity,
            kernel_table.allocator.spec_start() == kpe,
            kernel_table.allocator.spec_end() == kpe + BOOT_POOL_SIZE,
            kpe == cfg.kernel_phys_end,
            sdone % 4096 == 0,
            sdone <= ssize,
            ssize == sps - spe,
            ssize % 4096 == 0,
            spe % 4096 == 0,
            stack_virt == kv + ksize,
            ksize == kpe - kps,
            kps % 4096 == 0,
            kv % 4096 == 0,
            stack_virt % 4096 == 0,
            sps <= PHYS_LIMIT,
            kpe <= PHYS_LIMIT,
            kv + cfg.spec_span() <= usize::MAX,
            ksize + ssize <= cfg.spec_span(),
            cfg.spec_span() <= 0x7FFF_FFFF_FFFF,
            forall|va: u64|
                kv <= (va as int) < kv + ksize ==> lookup(kernel_table.ts(), va) == Some(
                    ((kps + (va as int - kv)) as u64),
                ),
            forall|va: u64|
                stack_virt <= (va as int) < stack_virt + sdone ==> lookup(kernel_table.ts(), va)
                    == Some(((spe + (va as int - stack_virt)) as u64)),
        decreases ssize - sdone,
    {
        let v = stack_virt + sdone;
        let p = spe + sdone;
        match kernel_table.map_4kib_page(v as u64, p as u64, MemoryAttributes::NormalCacheable) {
            Ok(()) => {},
            Err(e) => {
                return Err(BringupError::AddressSpace(e));
            },
        }
        proof {
            assert forall|va: u64| kv <= (va as int) < kv + ksize implies lookup(
                kernel_table.ts(),
                va,
            ) == Some(((kps + (va as int - kv)) as u64)) by {
                lemma_page_distinct_below(v as u64, va);
            }
            assert forall|va: u64| stack_virt <= (va as int) < stack_virt + sdone + 4096 implies
                lookup(kernel_table.ts(), va) == Some(((spe + (va as int - stack_virt)) as u64))
                by {
                if (va as int) < stack_virt + sdone {
                    lemma_page_distinct_below(v as u64, va);
                } else {
                    lemma_page_range(v as u64, va);
                }
            }
            vstd::arithmetic::div_mod::lemma_mod_multiples_vanish(1, sdone as int, 4096);
            lemma_step_bound(sdone as int, ssize as int, 4096);
        }
        sdone = sdone + 4096;
    }

    // One bookkeeping page behind the stack.
    let book_virt = stack_virt + ssize;
    match kernel_table.map_4kib_page(
        book_virt as u64,
        static_page as u64,
        MemoryAttributes::NormalCacheable,
    ) {
        Ok(()) => {},
        Err(e) => {
            return Err(BringupError::AddressSpace(e));
        },
    }
    proof {
        assert forall|va: u64| kv <= (va as int) < kv + ksize implies lookup(kernel_table.ts(), va)
            == Some(((kps + (va as int - kv)) as u64)) by {
            lemma_page_distinct_below(book_virt as u64, va);
        }
        assert forall|va: u64| stack_virt <= (va as int) < stack_virt + ssize implies lookup(
            kernel_table.ts(),
            va,
        ) == Some(((spe + (va as int - stack_virt)) as u64)) by {
            lemma_page_distinct_below(book_virt as u64, va);
        }
    }

    // Linearly map physical memory with 1GiB blocks at the next 1GiB
    // boundary, for constant-time physical-to-virtual translation.
    let after_book = book_virt + 4096;
    let rem = after_book % (SIZE_1GIB as usize);
    let lin_base: usize = if rem == 0 {
        after_book
    } else {
        after_book + ((SIZE_1GIB as usize) - rem)
    };
    proof {
        let g = SIZE_1GIB as int;
        let n = after_book as int;
        if n % g != 0 {
            vstd::arithmetic::div_mod::lemma_fundamental_div_mod(n, g);
            assert((n + (g - n % g)) % g == 0) by (nonlinear_arith)
                requires
                    g > 0,
                    n >= 0,
                    n == g * (n / g) + n % g,
                    0 <= n % g < g,
            ;
        }
        assert(lin_base % (SIZE_1GIB as usize) == 0);
        assert(lin_base + DIRECT_MAP_SIZE <= kv + cfg.spec_span());
    }
    let mut ldone: u64 = 0;
    while ldone < DIRECT_MAP_SIZE
        invariant
            cfg.spec_aligned(),
            !cfg.spec_empty_region(),
            cfg.page_size == 4096,
            kernel_table.wf(),
            kernel_table.translation == AddressTranslation::Identity,
            kernel_table.allocator.spec_start() == kpe,
            kernel_table.allocator.spec_end() == kpe + BOOT_POOL_SIZE,
            kpe == cfg.kernel_phys_end,
            ldone % SIZE_1GIB == 0,
            ldone <= DIRECT_MAP_SIZE,
            lin_base % (SIZE_1GIB as usize) == 0,
            kv <= stack_virt,
            stack_virt + ssize + 4096 <= lin_base,
            lin_base + DIRECT_MAP_SIZE <= kv + cfg.spec_span(),
            kv + cfg.spec_span() <= usize::MAX,
            cfg.spec_span() <= 0x7FFF_FFFF_FFFF,
            ksize == kpe - kps,
            stack_virt == kv + ksize,
            kpe <= PHYS_LIMIT,
            sps <= PHYS_LIMIT,
            ksize + ssize + 4096 + SIZE_1GIB + DIRECT_MAP_SIZE <= cfg.spec_span(),
            forall|va: u64|
                kv <= (va as int) < kv + ksize ==> lookup(kernel_table.ts(), va) == Some(
                    ((kps + (va as int - kv)) as u64),
                ),
            forall|va: u64|
                stack_virt <= (va as int) < stack_virt + ssize ==> lookup(kernel_table.ts(), va)
                    == Some(((spe + (va as int - stack_virt)) as u64)),
            forall|va: u64|
                lin_base <= (va as int) < lin_base + ldone ==> lookup(kernel_table.ts(), va)
                    == Some((va as int - lin_base) as u64),
        decreases DIRECT_MAP_SIZE - ldone,
    {
        let v = lin_base + (ldone as usize);
        match kernel_table.map_1gib_page(
            v as u64,
            ldone,
            MemoryAttributes::DeviceStronglyOrdered,
        ) {
            Ok(()) => {},
            Err(e) => {
                return Err(BringupError::AddressSpace(e));
            },
        }
        proof {
            assert forall|va: u64| kv <= (va as int) < kv + ksize implies lookup(
                kernel_table.ts(),
                va,
            ) == Some(((kps + (va as int - kv)) as u64)) by {
                lemma_1gib_distinct_below(v as u64, va);
            }
            assert forall|va: u64| stack_virt <= (va as int) < stack_virt + ssize implies lookup(
                kernel_table.ts(),
                va,
            ) == Some(((spe + (va as int - stack_virt)) as u64)) by {
                lemma_1gib_distinct_below(v as u64, va);
            }
            assert forall|va: u64| lin_base <= (va as int) < lin_base + ldone + SIZE_1GIB implies
                lookup(kernel_table.ts(), va) == Some((va as int - lin_base) as u64) by {
                if (va as int) < lin_base + ldone {
                    lemma_1gib_distinct_below(v as u64, va);
                } else {
                    lemma_1gib_range(v as u64, va);
                }
            }
            vstd::arithmetic::div_mod::lemma_mod_multiples_vanish(
                1,
                ldone as int,
                SIZE_1GIB as int,
            );
            lemma_step_bound(ldone as int, DIRECT_MAP_SIZE as int, SIZE_1GIB as int);
        }
        ldone = ldone + SIZE_1GIB;
    }

    // Account for physical memory: the reported free regions, then the
    // regions boot itself occupies.
    let mut memory_map = MemoryMap::new();
    let mut i: usize = 0;
    while i < free_regions.len()
        invariant
            cfg.spec_aligned(),
            !cfg.spec_empty_region(),
            cfg.page_size == 4096,
            memory_map.wf(),
            i <= free_regions@.len(),
            after_free_regions(free_regions@.subrange(0, i as int)) == Some(memory_map.view()),
        decreases free_regions@.len() - i,
    {
        let (start, size) = free_regions[i];
        proof {
            let sub1 = free_regions@.subrange(0, i + 1);
            assert(sub1.drop_last() =~= free_regions@.subrange(0, i as int));
            assert(sub1.last() == free_regions@[i as int]);
        }
        if size > 0 && start <= u64::MAX - size && start + size <= usize::MAX as u64 {
            let entry = MemoryMapEntry::new(
                start as usize,
                (start + size) as usize,
                MemoryMapType::FREE,
            );
            if !memory_map.add_entry(entry) {
                return Err(BringupError::MapCapacity);
            }
        }
        i = i + 1;
    }
    proof {
        assert(free_regions@.subrange(0, free_regions@.len() as int) =~= free_regions@);
    }
    // The first page stays reserved: secondary processors park there.
    if page_size > 0 {
        if !memory_map.add_entry(MemoryMapEntry::new(0, page_size, MemoryMapType::RESERVED)) {
            return Err(BringupError::MapCapacity);
        }
    }
    if !memory_map.add_entry(MemoryMapEntry::new(spe, sps, MemoryMapType::STACK)) {
        return Err(BringupError::MapCapacity);
    }
    if !memory_map.add_entry(MemoryMapEntry::new(kps, kpe, MemoryMapType::KERNEL)) {
        return Err(BringupError::MapCapacity);
    }
    let (alloc_start, alloc_next) = kernel_table.allocator.allocated_range();
    if alloc_start < alloc_next {
        if !memory_map.add_entry(
            MemoryMapEntry::new(alloc_start, alloc_next, MemoryMapType::RESERVED),
        ) {
            return Err(BringupError::MapCapacity);
        }
    }

    // The hardware-enable plan, and the translation in force afterwards.
    let plan = enable_mmu(&temp_table, &kernel_table);
    kernel_table.set_translator(AddressTranslation::LinearOffset(lin_base as u64));

    Ok(
        BringupResult {
            temp_table,
            kernel_table,
            memory_map,
            static_alloc,
            plan,
            kernel_entry: kv,
            linear_map_base: lin_base as u64,
        },
    )
}

/// Between two multiples of a positive granule there is room for one
/// whole granule.
proof fn lemma_step_bound(a: int, b: int, g: int)
    requires
        g > 0,
        a % g == 0,
        b % g == 0,
        a < b,
    ensures
        a + g <= b,
{
    vstd::arithmetic::div_mod::lemma_fundamental_div_mod(a, g);
    vstd::arithmetic::div_mod::lemma_fundamental_div_mod(b, g);
    assert(a + g <= b) by (nonlinear_arith)
        requires
            g > 0,
            a == g * (a / g) + a % g,
            b == g * (b / g) + b % g,
            a % g == 0,
            b % g == 0,
            a < b,
    ;
}

} // verus!
