//! The hardware-enable step of the bring-up sequence, as a verified plan.
//!
//! Programming translation is a fixed order of system-register writes
//! with an instruction synchronization barrier after each group: the
//! memory-attribute table, both translation-table base registers, the
//! translation-control register, a barrier, the system-control register
//! enabling translation and caches, a barrier. `enable_mmu` computes that
//! plan from the two tables; the platform layer performs each write in
//! order. Writing the base registers after enabling translation, or
//! omitting a barrier, yields undefined translation results.

use vstd::prelude::*;

use crate::memory_attribute::{spec_mair_value, mair_value};
use crate::page_table::PageTable;

verus! {

/// Translation-control register value: 48-bit input address size and
/// 4KiB granule for both address-space halves.
pub const TCR_VALUE: u64 = (0b101u64 << 32) | 16u64 | (16u64 << 16) | (0b10u64 << 30);

/// System-control register value: enable translation and instruction and
/// data caching.
pub const SCTLR_VALUE: u64 = 1u64 | (1u64 << 2) | (1u64 << 12);

/// One step of the hardware-enable sequence.
#[derive(Clone, Copy, PartialEq, Eq, Structural, Debug)]
pub enum MmuRegisterWrite {
    /// Write the memory-attribute table register.
    Mair(u64),
    /// Write the base register for the low (identity) half.
    Ttbr0(u64),
    /// Write the base register for the high (kernel) half.
    Ttbr1(u64),
    /// Write the translation-control register.
    Tcr(u64),
    /// Issue an instruction synchronization barrier.
    InstructionBarrier,
    /// Write the system-control register.
    Sctlr(u64),
}

/// The full enable plan for the two given root tables.
pub open spec fn mmu_enable_plan(ttbr0_root: u64, ttbr1_root: u64) -> Seq<MmuRegisterWrite> {
    seq![
        MmuRegisterWrite::Mair(spec_mair_value()),
        MmuRegisterWrite::Ttbr0(ttbr0_root),
        MmuRegisterWrite::Ttbr1(ttbr1_root),
        MmuRegisterWrite::Tcr(TCR_VALUE),
        MmuRegisterWrite::InstructionBarrier,
        MmuRegisterWrite::Sctlr(SCTLR_VALUE),
        MmuRegisterWrite::InstructionBarrier,
    ]
}

/// Computes the register writes that install the two tables and enable
/// translation, in the one order the hardware accepts.
pub fn enable_mmu(ttbr0: &PageTable, ttbr1: &PageTable) -> (plan: Vec<MmuRegisterWrite>)
    requires
        ttbr0.wf(),
        ttbr1.wf(),
    ensures
        plan@ == mmu_enable_plan(ttbr0.ts()[0].phys, ttbr1.ts()[0].phys),
{
    let mut plan: Vec<MmuRegisterWrite> = Vec::new();
    plan.push(MmuRegisterWrite::Mair(mair_value()));
    plan.push(MmuRegisterWrite::Ttbr0(ttbr0.as_raw()));
    plan.push(MmuRegisterWrite::Ttbr1(ttbr1.as_raw()));
    plan.push(MmuRegisterWrite::Tcr(TCR_VALUE));
    plan.push(MmuRegisterWrite::InstructionBarrier);
    plan.push(MmuRegisterWrite::Sctlr(SCTLR_VALUE));
    plan.push(MmuRegisterWrite::InstructionBarrier);
    proof {
        assert(plan@ =~= mmu_enable_plan(ttbr0.ts()[0].phys, ttbr1.ts()[0].phys));
    }
    plan
}

/// The bring-up plan always writes the attribute table before either base
/// register, the base registers before the control register, and the
/// control register before the enable bit in the system-control register.
pub proof fn lemma_bringup_write_order(ttbr0_root: u64, ttbr1_root: u64)
    ensures
        forall|i: int, j: int|
            0 <= i < mmu_enable_plan(ttbr0_root, ttbr1_root).len() && 0 <= j < mmu_enable_plan(
                ttbr0_root,
                ttbr1_root,
            ).len() && (#[trigger] mmu_enable_plan(ttbr0_root, ttbr1_root)[i]) is Mair && ((
            #[trigger] mmu_enable_plan(ttbr0_root, ttbr1_root)[j]) is Ttbr0 || mmu_enable_plan(
                ttbr0_root,
                ttbr1_root,
            )[j] is Ttbr1) ==> i < j,
        forall|i: int, j: int|
            0 <= i < mmu_enable_plan(ttbr0_root, ttbr1_root).len() && 0 <= j < mmu_enable_plan(
                ttbr0_root,
                ttbr1_root,
            ).len() && ((#[trigger] mmu_enable_plan(ttbr0_root, ttbr1_root)[i]) is Ttbr0
                || mmu_enable_plan(ttbr0_root, ttbr1_root)[i] is Ttbr1) && (
            #[trigger] mmu_enable_plan(ttbr0_root, ttbr1_root)[j]) is Tcr ==> i < j,
        forall|i: int, j: int|
            0 <= i < mmu_enable_plan(ttbr0_root, ttbr1_root).len() && 0 <= j < mmu_enable_plan(
                ttbr0_root,
                ttbr1_root,
            ).len() && (#[trigger] mmu_enable_plan(ttbr0_root, ttbr1_root)[i]) is Tcr && (
            #[trigger] mmu_enable_plan(ttbr0_root, ttbr1_root)[j]) is Sctlr ==> i < j,
{
    let s = mmu_enable_plan(ttbr0_root, ttbr1_root);
    assert(s.len() == 7);
    assert(s[0] is Mair && s[1] is Ttbr0 && s[2] is Ttbr1 && s[3] is Tcr && s[4]
        is InstructionBarrier && s[5] is Sctlr && s[6] is InstructionBarrier);
}

} // verus!
