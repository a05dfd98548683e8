use bootmem::memory_map::{MemoryMap, MemoryMapEntry, MemoryMapType, MAP_CAPACITY};

fn entry(base: usize, end: usize, kind: MemoryMapType) -> MemoryMapEntry {
    MemoryMapEntry::new(base, end, kind)
}

#[test]
fn reserving_the_head_of_a_free_region_splits_off_the_rest() {
    let mut m = MemoryMap::new();
    assert!(m.add_entry(entry(0x0, 0x80000, MemoryMapType::FREE)));
    assert!(m.add_entry(entry(0x0, 0x1000, MemoryMapType::RESERVED)));
    assert_eq!(m.entry_count(), 2);
    assert_eq!(m.get_entry(0), entry(0x0, 0x1000, MemoryMapType::RESERVED));
    assert_eq!(m.get_entry(1), entry(0x1000, 0x80000, MemoryMapType::FREE));
    assert_eq!(m.get_free_mem(), 0x7F000);
}

#[test]
fn reserving_the_middle_of_a_free_region_splits_it_in_three() {
    let mut m = MemoryMap::new();
    assert!(m.add_entry(entry(0x1000, 0x9000, MemoryMapType::FREE)));
    assert!(m.add_entry(entry(0x3000, 0x5000, MemoryMapType::RESERVED)));
    assert_eq!(m.entry_count(), 3);
    assert_eq!(m.get_entry(0), entry(0x1000, 0x3000, MemoryMapType::FREE));
    assert_eq!(m.get_entry(1), entry(0x3000, 0x5000, MemoryMapType::RESERVED));
    assert_eq!(m.get_entry(2), entry(0x5000, 0x9000, MemoryMapType::FREE));
}

#[test]
fn adjacent_same_kind_regions_merge() {
    let mut m = MemoryMap::new();
    assert!(m.add_entry(entry(0x1000, 0x2000, MemoryMapType::FREE)));
    assert!(m.add_entry(entry(0x2000, 0x3000, MemoryMapType::FREE)));
    assert_eq!(m.entry_count(), 1);
    assert_eq!(m.get_entry(0), entry(0x1000, 0x3000, MemoryMapType::FREE));
}

#[test]
fn exactly_coinciding_bounds_replace_the_old_kind() {
    let mut m = MemoryMap::new();
    assert!(m.add_entry(entry(0x1000, 0x2000, MemoryMapType::FREE)));
    assert!(m.add_entry(entry(0x1000, 0x2000, MemoryMapType::KERNEL)));
    assert_eq!(m.entry_count(), 1);
    assert_eq!(m.get_entry(0), entry(0x1000, 0x2000, MemoryMapType::KERNEL));
}

#[test]
fn enclosed_regions_are_removed() {
    let mut m = MemoryMap::new();
    assert!(m.add_entry(entry(0x2000, 0x3000, MemoryMapType::FREE)));
    assert!(m.add_entry(entry(0x1000, 0x4000, MemoryMapType::MMIO)));
    assert_eq!(m.entry_count(), 1);
    assert_eq!(m.get_entry(0), entry(0x1000, 0x4000, MemoryMapType::MMIO));
}

#[test]
fn free_and_total_memory_sum_by_kind() {
    let mut m = MemoryMap::new();
    assert!(m.add_entry(entry(0x0, 0x4000, MemoryMapType::FREE)));
    assert!(m.add_entry(entry(0x8000, 0x9000, MemoryMapType::RECLAIM)));
    assert!(m.add_entry(entry(0x10000, 0x12000, MemoryMapType::KERNEL)));
    assert_eq!(m.get_free_mem(), 0x5000);
    assert_eq!(m.get_total_mem(), 0x7000);
}

#[test]
fn exceeding_capacity_fails_and_leaves_the_map_unchanged() {
    let mut m = MemoryMap::new();
    // Fill the map with disjoint, non-adjacent regions so nothing merges.
    for i in 0..MAP_CAPACITY {
        let base = i * 0x2000;
        assert!(m.add_entry(entry(base, base + 0x1000, MemoryMapType::FREE)));
    }
    assert_eq!(m.entry_count(), MAP_CAPACITY);
    let before: Vec<MemoryMapEntry> = (0..m.entry_count()).map(|i| m.get_entry(i)).collect();

    let far = MAP_CAPACITY * 0x2000 + 0x10000;
    assert!(!m.add_entry(entry(far, far + 0x1000, MemoryMapType::RESERVED)));

    assert_eq!(m.entry_count(), MAP_CAPACITY);
    let after: Vec<MemoryMapEntry> = (0..m.entry_count()).map(|i| m.get_entry(i)).collect();
    assert_eq!(before, after);
}

#[test]
fn splitting_at_full_capacity_fails_without_mutation() {
    let mut m = MemoryMap::new();
    for i in 0..MAP_CAPACITY {
        let base = i * 0x10000;
        assert!(m.add_entry(entry(base, base + 0x8000, MemoryMapType::FREE)));
    }
    // A middle reservation would need two more slots than splitting frees.
    assert!(!m.add_entry(entry(0x2000, 0x3000, MemoryMapType::RESERVED)));
    assert_eq!(m.entry_count(), MAP_CAPACITY);
    assert_eq!(m.get_entry(0), entry(0x0, 0x8000, MemoryMapType::FREE));
}

#[test]
fn kind_names_are_stable() {
    assert_eq!(MemoryMapType::FREE.to_string(), "Free");
    assert_eq!(MemoryMapType::RESERVED.to_string(), "Reserved");
    assert_eq!(MemoryMapType::RECLAIM.to_string(), "Reclaim");
    assert_eq!(MemoryMapType::KERNEL.to_string(), "Kernel");
    assert_eq!(MemoryMapType::STACK.to_string(), "Stack");
    assert_eq!(MemoryMapType::MMIO.to_string(), "MMIO");
}

#[test]
fn entries_report_containment() {
    let a = entry(0x1000, 0x3000, MemoryMapType::FREE);
    let b = entry(0x2000, 0x2800, MemoryMapType::RESERVED);
    assert!(a.contains(&b));
    assert!(a.fully_contains(&b));
    assert!(!b.fully_contains(&a));
}

#[test]
fn entry_sizes_come_from_the_bounds() {
    let a = entry(0x1000, 0x3000, MemoryMapType::FREE);
    assert_eq!(a.size().as_bytes(), 0x2000);
}
