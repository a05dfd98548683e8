//! Raw 64-bit translation-table descriptors.
//!
//! A descriptor is one 64-bit slot of a translation table, read by the
//! hardware walker in one of three shapes selected by its two low bits:
//! invalid (bit 0 clear), a link to a next-level table (bits 0 and 1 set,
//! at levels 0 to 2), or a terminal mapping (a block at levels 1 and 2 with
//! bit 1 clear; a page at level 3 with bit 1 set). The shapes are handled
//! as named, range-checked accessors over the raw value, never as an
//! overlapping union.

use vstd::prelude::*;

verus! {

pub const SIZE_4KIB: u64 = 4096;

pub const SIZE_2MIB: u64 = 2 * 1024 * 1024;

pub const SIZE_1GIB: u64 = 1024 * 1024 * 1024;

/// One more than the largest 48-bit physical address a descriptor can hold.
pub const PHYS_LIMIT: u64 = 0x1_0000_0000_0000;

/// Bit 0: the descriptor maps or links something.
pub open spec fn de_valid(d: u64) -> bool {
    d & 1 == 1
}

/// Bit 1: at levels 0 to 2 the descriptor links a next-level table; at
/// level 3 it marks a page descriptor.
pub open spec fn de_table(d: u64) -> bool {
    d & 2 == 2
}

/// Bits 47:12 of a table link: the physical address of the linked table.
pub open spec fn de_next_table(d: u64) -> u64 {
    d & 0x0000_FFFF_FFFF_F000
}

/// Bits 47:30 of a level-1 block: the 1GiB-aligned output address.
pub open spec fn de_block_out_l1(d: u64) -> u64 {
    d & 0x0000_FFFF_C000_0000
}

/// Bits 47:21 of a level-2 block: the 2MiB-aligned output address.
pub open spec fn de_block_out_l2(d: u64) -> u64 {
    d & 0x0000_FFFF_FFE0_0000
}

/// Bits 47:12 of a level-3 page descriptor: the output frame address.
pub open spec fn de_page_out(d: u64) -> u64 {
    d & 0x0000_FFFF_FFFF_F000
}

/// Bits 3:2: the memory-attribute index of a terminal descriptor.
pub open spec fn de_attr_idx(d: u64) -> u64 {
    (d >> 2) & 3
}

/// Bit 10: the access flag of a terminal descriptor.
pub open spec fn de_af(d: u64) -> bool {
    d & 0x400 == 0x400
}

/// Level-`n` index of a 48-bit virtual address: bits `[47 - 9n : 39 - 9n]`.
pub open spec fn l0_index(virt: u64) -> u64 {
    (virt >> 39) & 0x1FF
}

pub open spec fn l1_index(virt: u64) -> u64 {
    (virt >> 30) & 0x1FF
}

pub open spec fn l2_index(virt: u64) -> u64 {
    (virt >> 21) & 0x1FF
}

pub open spec fn l3_index(virt: u64) -> u64 {
    (virt >> 12) & 0x1FF
}

/// Offset of an address within its 1GiB translation granule.
pub open spec fn off_1gib(virt: u64) -> u64 {
    virt & 0x3FFF_FFFF
}

/// Offset of an address within its 2MiB translation granule.
pub open spec fn off_2mib(virt: u64) -> u64 {
    virt & 0x1F_FFFF
}

/// Offset of an address within its 4KiB page.
pub open spec fn off_4kib(virt: u64) -> u64 {
    virt & 0xFFF
}

/// The two addresses select the same level-3 slot: they agree on all four
/// table indexes, so the hardware walker resolves them through the same
/// page descriptor.
pub open spec fn same_page(a: u64, b: u64) -> bool {
    l0_index(a) == l0_index(b) && l1_index(a) == l1_index(b) && l2_index(a) == l2_index(b)
        && l3_index(a) == l3_index(b)
}

/// The two addresses select the same level-2 slot.
pub open spec fn same_2mib_region(a: u64, b: u64) -> bool {
    l0_index(a) == l0_index(b) && l1_index(a) == l1_index(b) && l2_index(a) == l2_index(b)
}

/// The two addresses select the same level-1 slot.
pub open spec fn same_1gib_region(a: u64, b: u64) -> bool {
    l0_index(a) == l0_index(b) && l1_index(a) == l1_index(b)
}

/// All table indexes are in range of a 512-entry table, and all granule
/// offsets are bounded by the granule size.
pub broadcast proof fn lemma_index_bounds(virt: u64)
    by (bit_vector)
    ensures
        #[trigger] l0_index(virt) < 512,
        #[trigger] l1_index(virt) < 512,
        #[trigger] l2_index(virt) < 512,
        #[trigger] l3_index(virt) < 512,
        #[trigger] off_1gib(virt) < SIZE_1GIB,
        #[trigger] off_2mib(virt) < SIZE_2MIB,
        #[trigger] off_4kib(virt) < SIZE_4KIB,
{
}

/// Every address within a 4KiB-aligned page selects the page's slots, at
/// its own offset within the page.
pub proof fn lemma_page_range(base: u64, a: u64)
    by (bit_vector)
    requires
        base % SIZE_4KIB == 0,
        base <= a < base + SIZE_4KIB,
    ensures
        same_page(a, base),
        off_4kib(a) == a - base,
{
}

/// Every address within a 2MiB-aligned region selects the region's slots,
/// at its own offset within the region.
pub proof fn lemma_2mib_range(base: u64, a: u64)
    by (bit_vector)
    requires
        base % SIZE_2MIB == 0,
        base <= a < base + SIZE_2MIB,
    ensures
        same_2mib_region(a, base),
        off_2mib(a) == a - base,
{
}

/// Every address within a 1GiB-aligned region selects the region's slots,
/// at its own offset within the region.
pub proof fn lemma_1gib_range(base: u64, a: u64)
    by (bit_vector)
    requires
        base % SIZE_1GIB == 0,
        base <= a < base + SIZE_1GIB,
    ensures
        same_1gib_region(a, base),
        off_1gib(a) == a - base,
{
}

/// An address strictly below a 4KiB-aligned page base — by less than the
/// 48-bit span the walker reads, minus one granule — never selects that
/// page's slot.
pub proof fn lemma_page_distinct_below(base: u64, a: u64)
    by (bit_vector)
    requires
        base % SIZE_4KIB == 0,
        a < base,
        base - a <= 0x1_0000_0000_0000u64 - 4096u64,
    ensures
        !same_page(a, base),
{
}

/// As `lemma_page_distinct_below`, for 2MiB regions.
pub proof fn lemma_2mib_distinct_below(base: u64, a: u64)
    by (bit_vector)
    requires
        base % SIZE_2MIB == 0,
        a < base,
        base - a <= 0x1_0000_0000_0000u64 - 0x20_0000u64,
    ensures
        !same_2mib_region(a, base),
{
}

/// As `lemma_page_distinct_below`, for 1GiB regions.
pub proof fn lemma_1gib_distinct_below(base: u64, a: u64)
    by (bit_vector)
    requires
        base % SIZE_1GIB == 0,
        a < base,
        base - a <= 0x1_0000_0000_0000u64 - 0x4000_0000u64,
    ensures
        !same_1gib_region(a, base),
{
}

/// Every address of a 1GiB-aligned region shares a page with exactly one
/// in-region offset: the region's base plus the address's own offset.
pub proof fn lemma_1gib_region_contains_page(base: u64, a: u64)
    by (bit_vector)
    requires
        base % SIZE_1GIB == 0,
        same_1gib_region(a, base),
    ensures
        same_page(a, (base + off_1gib(a)) as u64),
        off_1gib(a) < SIZE_1GIB,
{
}

/// As `lemma_1gib_region_contains_page`, for 2MiB regions.
pub proof fn lemma_2mib_region_contains_page(base: u64, a: u64)
    by (bit_vector)
    requires
        base % SIZE_2MIB == 0,
        same_2mib_region(a, base),
    ensures
        same_page(a, (base + off_2mib(a)) as u64),
        off_2mib(a) < SIZE_2MIB,
{
}

/// An address at least one granule above an aligned region base — by
/// less than the 48-bit span, minus one granule — never selects that
/// region's slot.
pub proof fn lemma_page_distinct_above(base: u64, a: u64)
    by (bit_vector)
    requires
        base % SIZE_4KIB == 0,
        base + SIZE_4KIB <= a,
        a - base <= 0x1_0000_0000_0000u64 - 4096u64,
    ensures
        !same_page(a, base),
{
}

/// As `lemma_page_distinct_above`, for 2MiB regions.
pub proof fn lemma_2mib_distinct_above(base: u64, a: u64)
    by (bit_vector)
    requires
        base % SIZE_2MIB == 0,
        base + SIZE_2MIB <= a,
        a - base <= 0x1_0000_0000_0000u64 - 0x20_0000u64,
    ensures
        !same_2mib_region(a, base),
{
}

/// As `lemma_page_distinct_above`, for 1GiB regions.
pub proof fn lemma_1gib_distinct_above(base: u64, a: u64)
    by (bit_vector)
    requires
        base % SIZE_1GIB == 0,
        base + SIZE_1GIB <= a,
        a - base <= 0x1_0000_0000_0000u64 - 0x4000_0000u64,
    ensures
        !same_1gib_region(a, base),
{
}

/// The empty descriptor maps nothing: it is neither valid nor a link.
pub proof fn lemma_zero_descriptor()
    by (bit_vector)
    ensures
        !de_valid(0),
        !de_table(0),
        de_next_table(0) == 0,
{
}

/// Reads bit 0 of a descriptor.
pub fn descriptor_is_valid(d: u64) -> (r: bool)
    ensures
        r == de_valid(d),
{
    d & 1 == 1
}

/// Reads bit 1 of a descriptor.
pub fn descriptor_is_table(d: u64) -> (r: bool)
    ensures
        r == de_table(d),
{
    d & 2 == 2
}

/// Reads the linked table address of a table descriptor.
pub fn descriptor_next_table(d: u64) -> (r: u64)
    ensures
        r == de_next_table(d),
{
    d & 0x0000_FFFF_FFFF_F000
}

/// Reads the output address of a level-1 block descriptor.
pub fn descriptor_block_out_l1(d: u64) -> (r: u64)
    ensures
        r == de_block_out_l1(d),
{
    d & 0x0000_FFFF_C000_0000
}

/// Reads the output address of a level-2 block descriptor.
pub fn descriptor_block_out_l2(d: u64) -> (r: u64)
    ensures
        r == de_block_out_l2(d),
{
    d & 0x0000_FFFF_FFE0_0000
}

/// Reads the output frame address of a level-3 page descriptor.
pub fn descriptor_page_out(d: u64) -> (r: u64)
    ensures
        r == de_page_out(d),
{
    d & 0x0000_FFFF_FFFF_F000
}

/// Reads the offset of an address within its 1GiB granule.
pub fn offset_1gib(virt: u64) -> (r: u64)
    ensures
        r == off_1gib(virt),
        r < SIZE_1GIB,
{
    proof {
        lemma_index_bounds(virt);
    }
    virt & 0x3FFF_FFFF
}

/// Reads the offset of an address within its 2MiB granule.
pub fn offset_2mib(virt: u64) -> (r: u64)
    ensures
        r == off_2mib(virt),
        r < SIZE_2MIB,
{
    proof {
        lemma_index_bounds(virt);
    }
    virt & 0x1F_FFFF
}

/// Reads the offset of an address within its 4KiB page.
pub fn offset_4kib(virt: u64) -> (r: u64)
    ensures
        r == off_4kib(virt),
        r < SIZE_4KIB,
{
    proof {
        lemma_index_bounds(virt);
    }
    virt & 0xFFF
}

/// Builds a table descriptor linking the 4KiB-aligned table at `next`.
pub fn make_table_descriptor(next: u64) -> (r: u64)
    requires
        next % SIZE_4KIB == 0,
        next < PHYS_LIMIT,
    ensures
        de_valid(r),
        de_table(r),
        de_next_table(r) == next,
{
    let r = 3u64 | next;
    proof {
        assert(de_valid(3u64 | next) && de_table(3u64 | next) && de_next_table(3u64 | next)
            == next) by (bit_vector)
            requires
                next % 4096u64 == 0,
                next < 0x1_0000_0000_0000u64,
        ;
    }
    r
}

/// Builds a level-1 block descriptor mapping 1GiB at `phys` with the given
/// attribute index; the access flag is set.
pub fn make_block_descriptor_l1(phys: u64, attr_idx: u64) -> (r: u64)
    requires
        phys % SIZE_1GIB == 0,
        phys < PHYS_LIMIT,
        attr_idx < 4,
    ensures
        de_valid(r),
        !de_table(r),
        de_block_out_l1(r) == phys,
        de_attr_idx(r) == attr_idx,
        de_af(r),
{
    let r = 1u64 | (attr_idx << 2) | 0x400u64 | phys;
    proof {
        let d = 1u64 | (attr_idx << 2) | 0x400u64 | phys;
        assert(de_valid(d) && !de_table(d) && de_block_out_l1(d) == phys && de_attr_idx(d)
            == attr_idx && de_af(d)) by (bit_vector)
            requires
                d == 1u64 | (attr_idx << 2) | 0x400u64 | phys,
                phys % 0x4000_0000u64 == 0,
                phys < 0x1_0000_0000_0000u64,
                attr_idx < 4,
        ;
    }
    r
}

/// Builds a level-2 block descriptor mapping 2MiB at `phys` with the given
/// attribute index; the access flag is set.
pub fn make_block_descriptor_l2(phys: u64, attr_idx: u64) -> (r: u64)
    requires
        phys % SIZE_2MIB == 0,
        phys < PHYS_LIMIT,
        attr_idx < 4,
    ensures
        de_valid(r),
        !de_table(r),
        de_block_out_l2(r) == phys,
        de_attr_idx(r) == attr_idx,
        de_af(r),
{
    let r = 1u64 | (attr_idx << 2) | 0x400u64 | phys;
    proof {
        let d = 1u64 | (attr_idx << 2) | 0x400u64 | phys;
        assert(de_valid(d) && !de_table(d) && de_block_out_l2(d) == phys && de_attr_idx(d)
            == attr_idx && de_af(d)) by (bit_vector)
            requires
                d == 1u64 | (attr_idx << 2) | 0x400u64 | phys,
                phys % 0x20_0000u64 == 0,
                phys < 0x1_0000_0000_0000u64,
                attr_idx < 4,
        ;
    }
    r
}

/// Builds a level-3 page descriptor mapping the 4KiB frame at `phys` with
/// the given attribute index; the access flag is set.
pub fn make_page_descriptor(phys: u64, attr_idx: u64) -> (r: u64)
    requires
        phys % SIZE_4KIB == 0,
        phys < PHYS_LIMIT,
        attr_idx < 4,
    ensures
        de_valid(r),
        de_table(r),
        de_page_out(r) == phys,
        de_attr_idx(r) == attr_idx,
        de_af(r),
{
    let r = 3u64 | (attr_idx << 2) | 0x400u64 | phys;
    proof {
        let d = 3u64 | (attr_idx << 2) | 0x400u64 | phys;
        assert(de_valid(d) && de_table(d) && de_page_out(d) == phys && de_attr_idx(d) == attr_idx
            && de_af(d)) by (bit_vector)
            requires
                d == 3u64 | (attr_idx << 2) | 0x400u64 | phys,
                phys % 4096u64 == 0,
                phys < 0x1_0000_0000_0000u64,
                attr_idx < 4,
        ;
    }
    r
}

/// The output fields of terminal descriptors are aligned to their granule
/// and bounded by the 48-bit physical space, so an output address plus an
/// in-granule offset never carries into the next granule.
pub broadcast proof fn lemma_out_bounds(d: u64)
    by (bit_vector)
    ensures
        #[trigger] de_block_out_l1(d) % SIZE_1GIB == 0 && de_block_out_l1(d) <= PHYS_LIMIT
            - SIZE_1GIB,
        #[trigger] de_block_out_l2(d) % SIZE_2MIB == 0 && de_block_out_l2(d) <= PHYS_LIMIT
            - SIZE_2MIB,
        #[trigger] de_page_out(d) % SIZE_4KIB == 0 && de_page_out(d) <= PHYS_LIMIT - SIZE_4KIB,
{
}

/// Reads the level-0 table index of an address.
pub fn level0_index(virt: u64) -> (r: u64)
    ensures
        r == l0_index(virt),
        r < 512,
{
    proof {
        lemma_index_bounds(virt);
    }
    (virt >> 39) & 0x1FF
}

/// Reads the level-1 table index of an address.
pub fn level1_index(virt: u64) -> (r: u64)
    ensures
        r == l1_index(virt),
        r < 512,
{
    proof {
        lemma_index_bounds(virt);
    }
    (virt >> 30) & 0x1FF
}

/// Reads the level-2 table index of an address.
pub fn level2_index(virt: u64) -> (r: u64)
    ensures
        r == l2_index(virt),
        r < 512,
{
    proof {
        lemma_index_bounds(virt);
    }
    (virt >> 21) & 0x1FF
}

/// Reads the level-3 table index of an address.
pub fn level3_index(virt: u64) -> (r: u64)
    ensures
        r == l3_index(virt),
        r < 512,
{
    proof {
        lemma_index_bounds(virt);
    }
    (virt >> 12) & 0x1FF
}

} // verus!
