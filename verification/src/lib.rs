//! Memory bring-up core for a two-stage bare-metal boot chain.
//!
//! The crate covers physical frame allocation, the physical memory map, the
//! multi-level hardware translation-table builder, the address-space
//! abstraction unifying them, and the identity-map-then-switch-to-higher-half
//! MMU bring-up sequence.

pub mod address_space;
pub mod bringup;
pub mod bump;
pub mod descriptor;
pub mod error;
pub mod frame_allocator;
pub mod freelist;
pub mod mailbox_message;
pub mod memory_attribute;
pub mod memory_map;
pub mod memory_size;
pub mod mmu;
pub mod page_table;
pub mod static_bump;

use vstd::prelude::*;

verus! {

/// A physical memory address, as handed out by the frame allocators.
pub type PhysAddr = usize;

} // verus!
