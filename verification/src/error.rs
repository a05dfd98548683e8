//! Error taxonomy of the memory bring-up core.
//!
//! Allocation and single-mapping-call failures are recoverable and are
//! returned to the immediate caller; remap-guard violations and construction
//! failures are fatal to boot, and callers of the bring-up sequence treat
//! them as such.

use vstd::prelude::*;

verus! {

/// Failure of a frame or byte allocation request: the allocator cannot
/// satisfy the request from its remaining range.
#[derive(Clone, Copy, PartialEq, Eq, Structural, Debug)]
pub struct AllocError;

/// Failures of address-space construction, mapping and translation calls.
#[derive(Clone, Copy, PartialEq, Eq, Structural, Debug)]
pub enum AddressSpaceError {
    /// An allocation needed for a new translation table could not be made.
    AllocationExhausted,
    /// A mapping call was given an address not aligned to the requested
    /// granule size.
    Misaligned,
    /// The target slot already holds a live descriptor; remapping in place
    /// is a contract violation, never a silent update.
    AlreadyMapped,
    /// The requested page granule is not supported by the table format.
    GranuleUnsupported,
    /// The platform page size is not the 4096 bytes the mapping logic
    /// supports.
    PageSizeMismatch,
    /// No live descriptor covers the queried virtual address; the normal
    /// "not mapped" result of a translation.
    TranslationNotFound,
}

/// Failures reported by character-device collaborators.
#[derive(Clone, Copy, PartialEq, Eq, Structural, Debug)]
pub enum DeviceError {
    BadWrite,
    Busy,
    BadOperand,
    Other,
}

} // verus!
