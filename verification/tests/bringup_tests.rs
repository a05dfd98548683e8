use bootmem::bringup::{mmu_bringup, BootConfig, DIRECT_MAP_SIZE};
use bootmem::mailbox_message::{GetArmMemory, GetClockRate, SetClockRate, CLOCK_UART};
use bootmem::memory_attribute::MemoryAttributes;
use bootmem::mmu::{enable_mmu, MmuRegisterWrite, SCTLR_VALUE, TCR_VALUE};
use bootmem::address_space::AddressTranslation;
use bootmem::bump::BumpPFA;
use bootmem::page_table::PageTable;

fn test_config() -> BootConfig {
    BootConfig {
        page_size: 4096,
        kernel_phys_start: 0x200000,
        kernel_phys_end: 0x280000,
        kernel_virt_start: 0xFFFF_FF80_0000_0000,
        stack_phys_start: 0x180000,
        stack_phys_end: 0x100000,
    }
}

fn write_order_holds(plan: &[MmuRegisterWrite]) -> bool {
    let pos = |f: &dyn Fn(&MmuRegisterWrite) -> bool| plan.iter().position(|w| f(w));
    let mair = pos(&|w| matches!(w, MmuRegisterWrite::Mair(_))).unwrap();
    let ttbr0 = pos(&|w| matches!(w, MmuRegisterWrite::Ttbr0(_))).unwrap();
    let ttbr1 = pos(&|w| matches!(w, MmuRegisterWrite::Ttbr1(_))).unwrap();
    let tcr = pos(&|w| matches!(w, MmuRegisterWrite::Tcr(_))).unwrap();
    let sctlr = pos(&|w| matches!(w, MmuRegisterWrite::Sctlr(_))).unwrap();
    mair < ttbr0 && mair < ttbr1 && ttbr0 < tcr && ttbr1 < tcr && tcr < sctlr
}

#[test]
fn bringup_produces_the_documented_register_order() {
    let cfg = test_config();
    let regions: Vec<(u64, u64)> = vec![(0x0, 0x8000_0000)];
    let res = mmu_bringup(&cfg, &regions).ok().unwrap();
    assert!(write_order_holds(&res.plan));
    // Barriers separate the control group from the enable bit.
    assert_eq!(res.plan.len(), 7);
    assert_eq!(res.plan[4], MmuRegisterWrite::InstructionBarrier);
    assert_eq!(res.plan[6], MmuRegisterWrite::InstructionBarrier);
}

#[test]
fn bringup_maps_the_kernel_and_its_stack_to_the_higher_half() {
    let cfg = test_config();
    let regions: Vec<(u64, u64)> = vec![(0x0, 0x8000_0000)];
    let res = mmu_bringup(&cfg, &regions).ok().unwrap();
    let kv = cfg.kernel_virt_start as u64;
    // Kernel image pages.
    assert_eq!(
        res.kernel_table.virt_to_phys(kv),
        Ok(cfg.kernel_phys_start as u64)
    );
    assert_eq!(
        res.kernel_table.virt_to_phys(kv + 0x1234),
        Ok(cfg.kernel_phys_start as u64 + 0x1234)
    );
    // Stack pages follow the image.
    let ksize = (cfg.kernel_phys_end - cfg.kernel_phys_start) as u64;
    assert_eq!(
        res.kernel_table.virt_to_phys(kv + ksize),
        Ok(cfg.stack_phys_end as u64)
    );
    assert_eq!(res.kernel_entry, cfg.kernel_virt_start);
}

#[test]
fn bringup_identity_maps_the_low_half_and_linearly_maps_the_high() {
    let cfg = test_config();
    let regions: Vec<(u64, u64)> = vec![(0x0, 0x8000_0000)];
    let res = mmu_bringup(&cfg, &regions).ok().unwrap();
    // Identity map in the temporary table.
    assert_eq!(res.temp_table.virt_to_phys(0x12345), Ok(0x12345));
    assert_eq!(
        res.temp_table.virt_to_phys(DIRECT_MAP_SIZE - 1),
        Ok(DIRECT_MAP_SIZE - 1)
    );
    // Linear map in the kernel table.
    assert_eq!(res.linear_map_base % (1 << 30), 0);
    assert_eq!(
        res.kernel_table.virt_to_phys(res.linear_map_base + 0x7654321),
        Ok(0x7654321)
    );
}

#[test]
fn bringup_accounts_for_boot_memory() {
    let cfg = test_config();
    let regions: Vec<(u64, u64)> = vec![(0x0, 0x8000_0000)];
    let res = mmu_bringup(&cfg, &regions).ok().unwrap();
    // The map covers the whole reported region, minus nothing.
    assert_eq!(res.memory_map.get_total_mem(), 0x8000_0000);
    // Everything reserved is no longer free.
    assert!(res.memory_map.get_free_mem() < 0x8000_0000);
    let mut seen_kernel = false;
    let mut prev_end = 0;
    for i in 0..res.memory_map.entry_count() {
        let e = res.memory_map.get_entry(i);
        assert!(e.base_addr >= prev_end);
        prev_end = e.end_addr;
        if e.base_addr == cfg.kernel_phys_start && e.end_addr == cfg.kernel_phys_end {
            seen_kernel = true;
        }
    }
    assert!(seen_kernel);
}

#[test]
fn bringup_rejects_misaligned_or_empty_regions() {
    let mut cfg = test_config();
    cfg.kernel_phys_start = 0x200001;
    let regions: Vec<(u64, u64)> = vec![];
    assert!(mmu_bringup(&cfg, &regions).is_err());
    let mut cfg2 = test_config();
    cfg2.stack_phys_end = cfg2.stack_phys_start;
    assert!(mmu_bringup(&cfg2, &regions).is_err());
}

#[test]
fn the_enable_plan_carries_both_roots_and_fixed_control_values() {
    let t0 = PageTable::new(
        AddressTranslation::Identity,
        BumpPFA::new(0x100000, 0x200000, 4096).unwrap(),
    )
    .unwrap();
    let mut t1 = PageTable::new(
        AddressTranslation::Identity,
        BumpPFA::new(0x200000, 0x300000, 4096).unwrap(),
    )
    .unwrap();
    t1.map_1gib_page(0, 0, MemoryAttributes::DeviceStronglyOrdered)
        .unwrap();
    let plan = enable_mmu(&t0, &t1);
    assert_eq!(plan[1], MmuRegisterWrite::Ttbr0(t0.as_raw()));
    assert_eq!(plan[2], MmuRegisterWrite::Ttbr1(t1.as_raw()));
    assert_eq!(plan[3], MmuRegisterWrite::Tcr(TCR_VALUE));
    assert_eq!(plan[5], MmuRegisterWrite::Sctlr(SCTLR_VALUE));
    assert!(write_order_holds(&plan));
}

#[test]
fn property_mail_messages_carry_their_documented_headers() {
    let m = GetArmMemory::new();
    assert_eq!(m.msgsize, 32);
    assert_eq!(m.data.tag, 0x0001_0005);
    assert_eq!(m.data.bufsize, 8);
    let g = GetClockRate::new(CLOCK_UART);
    assert_eq!(g.msgsize, 32);
    assert_eq!(g.data.tag, 0x0003_0002);
    assert_eq!(g.data.id, CLOCK_UART);
    let s = SetClockRate::new(CLOCK_UART, 30_000_000);
    assert_eq!(s.msgsize, 48);
    assert_eq!(s.data.tag, 0x0003_8002);
    assert_eq!(s.data.bufsize, 12);
    assert_eq!(s.data.rate, 30_000_000);
    assert_eq!(s.data.skip_turbo, 0);
}
