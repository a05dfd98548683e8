use bootmem::bump::BumpPFA;
use bootmem::error::AllocError;
use bootmem::freelist::{FreelistEntry, FreelistPFA};
use bootmem::memory_size::MemorySize;
use bootmem::static_bump::{StaticAlloc, StaticBumpAlloc};

const S: usize = 0x10000;
const E: usize = 0x14000;

#[test]
fn bump_first_allocation_returns_start() {
    let mut a = BumpPFA::new(S, E, 4096).unwrap();
    assert_eq!(a.allocate_contiguous_pages(1), Ok(S));
}

#[test]
fn bump_second_allocation_advances_by_page_multiple() {
    let mut a = BumpPFA::new(S, E, 4096).unwrap();
    assert_eq!(a.allocate_contiguous_pages(2), Ok(S));
    assert_eq!(a.allocate_contiguous_pages(1), Ok(S + 2 * 4096));
}

#[test]
fn bump_exhaustion_when_reaching_end() {
    // Four frames fit in [S, E); a fifth must fail, and an allocation
    // that would run past the end fails while a full fit succeeds.
    let mut a = BumpPFA::new(S, E, 4096).unwrap();
    assert_eq!(a.allocate_contiguous_pages(5), Err(AllocError));
    assert_eq!(a.allocate_contiguous_pages(4), Ok(S));
    assert_eq!(a.allocate_contiguous_pages(1), Err(AllocError));
}

#[test]
fn bump_rejects_zero_pages() {
    let mut a = BumpPFA::new(S, E, 4096).unwrap();
    assert_eq!(a.allocate_contiguous_pages(0), Err(AllocError));
}

#[test]
fn bump_rejects_misaligned_range() {
    assert!(BumpPFA::new(S + 1, E, 4096).is_err());
    assert!(BumpPFA::new(S, E + 7, 4096).is_err());
    assert!(BumpPFA::new(E, S, 4096).is_err());
}

#[test]
fn bump_allocated_range_tracks_cursor() {
    let mut a = BumpPFA::new(S, E, 4096).unwrap();
    assert_eq!(a.allocated_range(), (S, S));
    a.allocate_contiguous_pages(3).unwrap();
    assert_eq!(a.allocated_range(), (S, S + 3 * 4096));
}

#[test]
fn freelist_reuses_last_freed_frame_first() {
    let mut f = FreelistPFA::new();
    f.free(0x8000);
    assert_eq!(f.allocate(), Ok(0x8000));
}

#[test]
fn freelist_two_frames_come_back_reversed() {
    let mut f = FreelistPFA::new();
    f.free(0x8000);
    f.free(0x9000);
    assert_eq!(f.allocate(), Ok(0x9000));
    assert_eq!(f.allocate(), Ok(0x8000));
}

#[test]
fn freelist_exhaustion_is_a_returned_error() {
    let mut f = FreelistPFA::new();
    assert_eq!(f.allocate(), Err(AllocError));
    f.free(0x8000);
    let _ = f.allocate();
    assert_eq!(f.allocate(), Err(AllocError));
}

#[test]
fn freelist_counts_frees() {
    let mut f = FreelistPFA::new();
    assert_eq!(f.len(), 0);
    f.free(0x8000);
    f.free(0x9000);
    assert_eq!(f.len(), 2);
}

#[test]
fn freelist_links_chain_to_previous_frame() {
    let mut f = FreelistPFA::new();
    f.free(0x8000);
    f.free(0x9000);
    assert_eq!(f.link_for(0), FreelistEntry(None));
    assert_eq!(f.link_for(1), FreelistEntry(Some(0x8000)));
}

#[test]
fn static_bump_allocates_aligned_blocks() {
    let mut a = StaticBumpAlloc::new(0x1000, 0x1000);
    let first = a.allocate_bytes(10, 8).unwrap();
    assert_eq!(first, 0x1000);
    let second = a.allocate_bytes(16, 16).unwrap();
    assert_eq!(second, 0x1010);
    assert_eq!(second % 16, 0);
}

#[test]
fn static_bump_remaining_shrinks() {
    let mut a = StaticBumpAlloc::new(0x1000, 0x100);
    assert_eq!(a.remaining(), 0x100);
    a.allocate_bytes(0x40, 1).unwrap();
    assert_eq!(a.remaining(), 0xC0);
    assert!(a.allocate_bytes(0x100, 1).is_err());
}

#[test]
fn memory_size_units_are_exact() {
    assert_eq!(MemorySize::new(123).as_bytes(), 123);
    assert_eq!(MemorySize::from_kibibytes(3).as_bytes(), 3 * 1024);
    assert_eq!(MemorySize::from_mebibytes(2).as_bytes(), 2 * 1024 * 1024);
    assert_eq!(MemorySize::from_gibibytes(1).as_bytes(), 1024 * 1024 * 1024);
    assert_eq!(
        MemorySize::from_tebibytes(1).as_bytes(),
        1024usize * 1024 * 1024 * 1024
    );
}
