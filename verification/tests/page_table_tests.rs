use bootmem::address_space::{AddressSpace, AddressTranslation, Arch, ArchImpl};
use bootmem::bump::BumpPFA;
use bootmem::descriptor::{SIZE_1GIB, SIZE_2MIB, SIZE_4KIB};
use bootmem::error::AddressSpaceError;
use bootmem::memory_attribute::{translate_memory_attrib, MemoryAttributes};
use bootmem::page_table::PageTable;

const POOL_START: usize = 0x100000;
const POOL_END: usize = 0x400000;

fn fresh_table() -> PageTable {
    let alloc = BumpPFA::new(POOL_START, POOL_END, 4096).unwrap();
    PageTable::new(AddressTranslation::Identity, alloc).unwrap()
}

#[test]
fn construction_rejects_other_page_sizes() {
    let alloc = BumpPFA::new(POOL_START, POOL_END, 8192).unwrap();
    assert_eq!(
        PageTable::new(AddressTranslation::Identity, alloc).err(),
        Some(AddressSpaceError::PageSizeMismatch)
    );
}

#[test]
fn construction_fails_on_an_exhausted_allocator() {
    let alloc = BumpPFA::new(POOL_START, POOL_START, 4096).unwrap();
    assert_eq!(
        PageTable::new(AddressTranslation::Identity, alloc).err(),
        Some(AddressSpaceError::AllocationExhausted)
    );
}

#[test]
fn fresh_table_translates_nothing() {
    let t = fresh_table();
    assert_eq!(
        t.virt_to_phys(0x1234),
        Err(AddressSpaceError::TranslationNotFound)
    );
}

#[test]
fn gib_mapping_round_trips_and_remap_fails() {
    let mut t = fresh_table();
    let v = 2 * SIZE_1GIB;
    let p = 5 * SIZE_1GIB;
    assert_eq!(
        t.map_1gib_page(v, p, MemoryAttributes::DeviceStronglyOrdered),
        Ok(())
    );
    assert_eq!(t.virt_to_phys(v), Ok(p));
    assert_eq!(t.virt_to_phys(v + 0x1234), Ok(p + 0x1234));
    assert_eq!(t.virt_to_phys(v + SIZE_1GIB - 1), Ok(p + SIZE_1GIB - 1));
    assert_eq!(
        t.map_1gib_page(v, p, MemoryAttributes::DeviceStronglyOrdered),
        Err(AddressSpaceError::AlreadyMapped)
    );
}

#[test]
fn gib_mapping_rejects_misaligned_addresses() {
    let mut t = fresh_table();
    assert_eq!(
        t.map_1gib_page(0x1000, 0, MemoryAttributes::DeviceStronglyOrdered),
        Err(AddressSpaceError::Misaligned)
    );
    assert_eq!(
        t.map_1gib_page(0, 0x1000, MemoryAttributes::DeviceStronglyOrdered),
        Err(AddressSpaceError::Misaligned)
    );
}

#[test]
fn page_mapping_translates_every_byte_of_the_page() {
    let mut t = fresh_table();
    let v = 0x4000_0000u64;
    let p = 0x1_0000_0000u64;
    assert_eq!(
        t.map_4kib_page(v, p, MemoryAttributes::NormalCacheable),
        Ok(())
    );
    for k in [0u64, 1, 0x7FF, 4095] {
        assert_eq!(t.virt_to_phys(v + k), Ok(p + k));
    }
    assert_eq!(
        t.virt_to_phys(v + 4096),
        Err(AddressSpaceError::TranslationNotFound)
    );
    assert_eq!(
        t.map_4kib_page(v, p, MemoryAttributes::NormalCacheable),
        Err(AddressSpaceError::AlreadyMapped)
    );
}

#[test]
fn mib_mapping_translates_and_guards_like_the_others() {
    let mut t = fresh_table();
    let v = 4 * SIZE_2MIB;
    let p = 9 * SIZE_2MIB;
    assert_eq!(
        t.map_2mib_page(v, p, MemoryAttributes::NormalCacheable),
        Ok(())
    );
    assert_eq!(t.virt_to_phys(v), Ok(p));
    assert_eq!(t.virt_to_phys(v + 0x12345), Ok(p + 0x12345));
    assert_eq!(
        t.map_2mib_page(v, p, MemoryAttributes::NormalCacheable),
        Err(AddressSpaceError::AlreadyMapped)
    );
    assert_eq!(
        t.map_2mib_page(v + 5, p, MemoryAttributes::NormalCacheable),
        Err(AddressSpaceError::Misaligned)
    );
}

#[test]
fn a_block_blocks_finer_mappings_below_it() {
    let mut t = fresh_table();
    assert_eq!(
        t.map_1gib_page(0, 0, MemoryAttributes::DeviceStronglyOrdered),
        Ok(())
    );
    assert_eq!(
        t.map_4kib_page(0x1000, 0x1000, MemoryAttributes::NormalCacheable),
        Err(AddressSpaceError::AlreadyMapped)
    );
    assert_eq!(
        t.map_2mib_page(SIZE_2MIB, SIZE_2MIB, MemoryAttributes::NormalCacheable),
        Err(AddressSpaceError::AlreadyMapped)
    );
}

#[test]
fn mapping_fails_cleanly_when_frames_run_out() {
    // Room for the root and one table only: the 4KiB walk needs three.
    let alloc = BumpPFA::new(POOL_START, POOL_START + 2 * 4096, 4096).unwrap();
    let mut t = PageTable::new(AddressTranslation::Identity, alloc).unwrap();
    assert_eq!(
        t.map_4kib_page(0, 0, MemoryAttributes::NormalCacheable),
        Err(AddressSpaceError::AllocationExhausted)
    );
    // The failed attempt maps nothing.
    assert_eq!(
        t.virt_to_phys(0),
        Err(AddressSpaceError::TranslationNotFound)
    );
}

#[test]
fn unmapping_removes_exactly_the_granule() {
    let mut t = fresh_table();
    let v = 0x4000_0000u64;
    let p = 0x8000_0000u64;
    assert_eq!(
        t.map_4kib_page(v, p, MemoryAttributes::NormalCacheable),
        Ok(())
    );
    assert_eq!(
        t.map_4kib_page(v + 4096, p + 4096, MemoryAttributes::NormalCacheable),
        Ok(())
    );
    assert_eq!(t.unmap_4kib_page(v, p), Ok(()));
    assert_eq!(
        t.virt_to_phys(v),
        Err(AddressSpaceError::TranslationNotFound)
    );
    assert_eq!(t.virt_to_phys(v + 4096), Ok(p + 4096));
}

#[test]
fn unmapping_reports_what_is_not_there() {
    let mut t = fresh_table();
    assert_eq!(
        t.unmap_1gib_page(0, 0),
        Err(AddressSpaceError::TranslationNotFound)
    );
    assert_eq!(
        t.unmap_1gib_page(1, 0),
        Err(AddressSpaceError::Misaligned)
    );
    assert_eq!(
        t.map_4kib_page(0, 0, MemoryAttributes::NormalCacheable),
        Ok(())
    );
    // The region is mapped at a finer granularity than a 1GiB block.
    assert_eq!(
        t.unmap_1gib_page(0, 0),
        Err(AddressSpaceError::GranuleUnsupported)
    );
    // The live page maps a different frame than the one named.
    assert_eq!(
        t.unmap_4kib_page(0, 0x5000),
        Err(AddressSpaceError::TranslationNotFound)
    );
}

#[test]
fn range_mapping_selects_every_granule() {
    let mut t = fresh_table();
    let size = SIZE_1GIB + SIZE_2MIB + SIZE_4KIB;
    assert_eq!(
        t.map_range(0, 0, size, MemoryAttributes::NormalCacheable),
        Ok(())
    );
    assert_eq!(t.virt_to_phys(0x123), Ok(0x123));
    assert_eq!(t.virt_to_phys(SIZE_1GIB), Ok(SIZE_1GIB));
    assert_eq!(t.virt_to_phys(SIZE_1GIB + SIZE_2MIB + 5), Ok(SIZE_1GIB + SIZE_2MIB + 5));
    assert_eq!(
        t.virt_to_phys(size),
        Err(AddressSpaceError::TranslationNotFound)
    );
    assert_eq!(t.unmap_range(0, 0, size), Ok(()));
    assert_eq!(
        t.virt_to_phys(SIZE_1GIB),
        Err(AddressSpaceError::TranslationNotFound)
    );
}

#[test]
fn range_operations_leave_other_regions_alone() {
    let mut t = fresh_table();
    let far = 5 * SIZE_1GIB;
    t.map_4kib_page(far, 0x7000, MemoryAttributes::NormalCacheable)
        .unwrap();
    let size = SIZE_2MIB + 2 * SIZE_4KIB;
    t.map_range(0, 0x4000_0000, size, MemoryAttributes::NormalCacheable)
        .unwrap();
    assert_eq!(t.virt_to_phys(far + 5), Ok(0x7005));
    t.unmap_range(0, 0x4000_0000, size).unwrap();
    assert_eq!(t.virt_to_phys(far + 5), Ok(0x7005));
    assert_eq!(
        t.virt_to_phys(SIZE_2MIB),
        Err(AddressSpaceError::TranslationNotFound)
    );
}

#[test]
fn finer_unmaps_distinguish_their_failures() {
    let mut t = fresh_table();
    assert_eq!(
        t.unmap_2mib_page(0, 0),
        Err(AddressSpaceError::TranslationNotFound)
    );
    t.map_4kib_page(0, 0, MemoryAttributes::NormalCacheable).unwrap();
    // The region holds a finer-grained table than a 2MiB block.
    assert_eq!(
        t.unmap_2mib_page(0, 0),
        Err(AddressSpaceError::GranuleUnsupported)
    );
    t.map_1gib_page(SIZE_1GIB, 0, MemoryAttributes::NormalCacheable)
        .unwrap();
    // A coarser block covers the page.
    assert_eq!(
        t.unmap_4kib_page(SIZE_1GIB, 0),
        Err(AddressSpaceError::GranuleUnsupported)
    );
}

#[test]
fn range_mapping_rejects_misaligned_spans() {
    let mut t = fresh_table();
    assert_eq!(
        t.map_range(0, 0, 100, MemoryAttributes::NormalCacheable),
        Err(AddressSpaceError::Misaligned)
    );
}

#[test]
fn the_address_space_capability_resolves_like_the_table() {
    let mut t = fresh_table();
    AddressSpace::map_range(&mut t, 0, 0, 2 * SIZE_4KIB, MemoryAttributes::NormalCacheable)
        .unwrap();
    assert_eq!(AddressSpace::translate(&t, 0x1004), Ok(0x1004));
    AddressSpace::unmap_range(&mut t, 0, 0, 2 * SIZE_4KIB).unwrap();
    assert_eq!(
        AddressSpace::translate(&t, 0x1004),
        Err(AddressSpaceError::TranslationNotFound)
    );
}

#[test]
fn the_architecture_seam_builds_working_spaces() {
    let alloc = BumpPFA::new(POOL_START, POOL_END, 4096).unwrap();
    let mut space = ArchImpl::new_address_space(AddressTranslation::Identity, alloc).unwrap();
    AddressSpace::map_range(&mut space, 0, 0, SIZE_4KIB, MemoryAttributes::NormalCacheable)
        .unwrap();
    assert_eq!(AddressSpace::translate(&space, 12), Ok(12));
}

#[test]
fn set_translator_switches_the_addressing_mode() {
    let mut t = fresh_table();
    t.set_translator(AddressTranslation::LinearOffset(0xFFFF_0000_0000_0000));
    let tr = AddressTranslation::LinearOffset(0x1000);
    assert_eq!(tr.translate(0x234), 0x1234);
    assert_eq!(AddressTranslation::Identity.translate(0x234), 0x234);
}

#[test]
fn attribute_indices_are_stable() {
    assert_eq!(
        translate_memory_attrib(MemoryAttributes::DeviceStronglyOrdered),
        0
    );
    assert_eq!(translate_memory_attrib(MemoryAttributes::NormalCacheable), 1);
    assert_eq!(
        translate_memory_attrib(MemoryAttributes::NormalNonCacheable),
        2
    );
}

#[test]
fn the_root_address_comes_from_the_allocator() {
    let t = fresh_table();
    assert_eq!(t.as_raw(), POOL_START as u64);
}
