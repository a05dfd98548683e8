//! Memory-attribute encoding shared by the page-table builder and the
//! hardware attribute-configuration register.
//!
//! Each attribute kind maps to one index, consumed both by a terminal
//! descriptor's attribute field and by the matching 8-bit slot of the
//! memory-attribute register value. Adding a kind here adds its slot to the
//! register value in the same place, so the two cannot drift apart.

use vstd::prelude::*;

verus! {

/// The closed set of memory attributes a mapping can carry.
#[derive(Clone, Copy, PartialEq, Eq, Structural, Debug)]
pub enum MemoryAttributes {
    /// Device memory: non-gathering, non-reordering, no early write
    /// acknowledgement.
    DeviceStronglyOrdered,
    /// Normal memory, write-back cacheable.
    NormalCacheable,
    /// Normal memory, non-cacheable.
    NormalNonCacheable,
}

/// The attribute index a descriptor carries for each attribute kind.
pub open spec fn spec_attr_index(attr: MemoryAttributes) -> u64 {
    match attr {
        MemoryAttributes::DeviceStronglyOrdered => 0,
        MemoryAttributes::NormalCacheable => 1,
        MemoryAttributes::NormalNonCacheable => 2,
    }
}

/// The 8-bit memory-attribute-register field backing each attribute index:
/// device nGnRnE, normal write-back cacheable, normal non-cacheable.
pub open spec fn spec_attr_field(attr: MemoryAttributes) -> u64 {
    match attr {
        MemoryAttributes::DeviceStronglyOrdered => 0x00,
        MemoryAttributes::NormalCacheable => 0xFF,
        MemoryAttributes::NormalNonCacheable => 0x44,
    }
}

/// The full memory-attribute register value: one 8-bit field per attribute
/// index, field `i` at bits `[8i + 7 : 8i]`.
pub open spec fn spec_mair_value() -> u64 {
    spec_attr_field(MemoryAttributes::DeviceStronglyOrdered) | (spec_attr_field(
        MemoryAttributes::NormalCacheable,
    ) << 8) | (spec_attr_field(MemoryAttributes::NormalNonCacheable) << 16)
}

/// Translates an attribute kind to the index its descriptors carry.
pub fn translate_memory_attrib(attr: MemoryAttributes) -> (r: u8)
    ensures
        r == spec_attr_index(attr),
        r < 4,
{
    match attr {
        MemoryAttributes::DeviceStronglyOrdered => 0,
        MemoryAttributes::NormalCacheable => 1,
        MemoryAttributes::NormalNonCacheable => 2,
    }
}

/// Computes the memory-attribute register value matching the index
/// translation, so the register and the descriptors stay in sync: the
/// 8-bit field at index `i` backs exactly the attribute translated to `i`.
pub fn mair_value() -> (r: u64)
    ensures
        r == spec_mair_value(),
        (r >> (8 * spec_attr_index(MemoryAttributes::DeviceStronglyOrdered)) as u64) & 0xFF
            == spec_attr_field(MemoryAttributes::DeviceStronglyOrdered),
        (r >> (8 * spec_attr_index(MemoryAttributes::NormalCacheable)) as u64) & 0xFF
            == spec_attr_field(MemoryAttributes::NormalCacheable),
        (r >> (8 * spec_attr_index(MemoryAttributes::NormalNonCacheable)) as u64) & 0xFF
            == spec_attr_field(MemoryAttributes::NormalNonCacheable),
{
    proof {
        let v = 0x00u64 | (0xFFu64 << 8) | (0x44u64 << 16);
        assert(v == (0x00u64 | (0xFFu64 << 8) | (0x44u64 << 16)));
        assert((v >> 0u64) & 0xFF == 0x00u64 && (v >> 8u64) & 0xFF == 0xFFu64 && (v >> 16u64)
            & 0xFF == 0x44u64) by (bit_vector)
            requires
                v == (0x00u64 | (0xFFu64 << 8) | (0x44u64 << 16)),
        ;
    }
    0x00u64 | (0xFFu64 << 8) | (0x44u64 << 16)
}

} // verus!
