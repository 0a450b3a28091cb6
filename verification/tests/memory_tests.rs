use net_uio::memory::{
    dma_size_is_valid, page_present, pagemap_entry, pagemap_offset, phys_addr_from_entry,
    present_bit, Memory, PhysAddrRequest, HUGE_PAGE_SIZE,
};

#[test]
fn present_bit_is_bit_63() {
    assert_eq!(present_bit(1u64 << 63), 1);
    assert_eq!(present_bit(u64::MAX), 1);
    assert_eq!(present_bit(0), 0);
    assert_eq!(present_bit((1u64 << 63) - 1), 0);
    assert!(page_present(0x8000_0000_0001_2345));
    assert!(!page_present(0x0000_0000_0001_2345));
}

#[test]
fn phys_addr_shifts_entry_by_page_shift() {
    assert_eq!(phys_addr_from_entry(0x8000_0000_0001_2345), 0x1234_5000);
    assert_eq!(phys_addr_from_entry(0), 0);
    assert_eq!(phys_addr_from_entry(u64::MAX), 0xffff_ffff_ffff_f000);
    for e in [0x8600_0000_0004_0000u64, 0x8100_0000_0000_00ff, 12345] {
        assert_eq!(phys_addr_from_entry(e), e << 12);
        assert_eq!(phys_addr_from_entry(e) % 4096, 0);
    }
}

#[test]
fn pagemap_offset_is_page_index_times_eight() {
    assert_eq!(pagemap_offset(0), 0);
    assert_eq!(pagemap_offset(4095), 0);
    assert_eq!(pagemap_offset(4096), 8);
    assert_eq!(pagemap_offset(0x7f12_3456_7000), 0x7f12_3456_7 * 8);
    assert_eq!(pagemap_offset(usize::MAX), (usize::MAX as u64 / 4096) * 8);
}

#[test]
fn pagemap_entry_is_little_endian() {
    let bytes = [0x45, 0x23, 0x01, 0, 0, 0, 0, 0x80];
    assert_eq!(pagemap_entry(&bytes), 0x8000_0000_0001_2345);
}

#[test]
fn dma_sizes_are_whole_huge_pages() {
    assert!(dma_size_is_valid(HUGE_PAGE_SIZE));
    assert!(dma_size_is_valid(2 * 1024 * 1024));
    assert!(dma_size_is_valid(4 * 1024 * 1024));
    assert!(dma_size_is_valid(0));
    assert!(!dma_size_is_valid(4096));
    assert!(!dma_size_is_valid(2 * 1024 * 1024 + 1));
}

#[test]
fn memory_starts_without_physical_address() {
    let m = Memory::new(0x7f00_0020_0000, HUGE_PAGE_SIZE);
    assert_eq!(m.va(), 0x7f00_0020_0000);
    assert_eq!(m.size(), HUGE_PAGE_SIZE);
    assert_eq!(m.phys_addr_request(), PhysAddrRequest::Lookup((0x7f00_0020_0000u64 / 4096) * 8));
}

#[test]
fn memory_caches_physical_address() {
    let mut m = Memory::new(0x7f00_0020_0000, HUGE_PAGE_SIZE);
    let entry = 0x8000_0000_0001_2345u64;
    let pa = m.record_phys_addr(entry);
    assert_eq!(pa, 0x1234_5000);
    assert_eq!(pa % 4096, 0);
    assert_eq!(m.phys_addr_request(), PhysAddrRequest::Cached(0x1234_5000));
    assert_eq!(m.phys_addr_request(), PhysAddrRequest::Cached(0x1234_5000));
    assert_eq!(m.va(), 0x7f00_0020_0000);
    assert_eq!(m.size(), HUGE_PAGE_SIZE);
}

#[test]
fn recorded_addresses_are_page_aligned() {
    for entry in [0x8000_0000_0000_0001u64, 0xffff_ffff_ffff_ffff, 0x8123_4567_89ab_cdef] {
        let mut m = Memory::new(0x1000, 2 * HUGE_PAGE_SIZE);
        let pa = m.record_phys_addr(entry);
        assert_eq!(pa % 4096, 0);
        match m.phys_addr_request() {
            PhysAddrRequest::Cached(a) => assert_eq!(a % 4096, 0),
            PhysAddrRequest::Lookup(_) => panic!("address not cached"),
        }
        assert_eq!(m.size(), 2 * HUGE_PAGE_SIZE);
        assert_eq!(m.va(), 0x1000);
    }
}
