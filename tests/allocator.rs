use simple_allocator::{AllocError, ArenaAllocator, ArenaConfig, Block, InvalidFree};

fn arena() -> ArenaAllocator {
    ArenaAllocator::new(ArenaConfig { base: 0x1000, header_size: 24, header_align: 8 }).unwrap()
}

fn blocks(a: &ArenaAllocator) -> Vec<Block> {
    let mut it = a.iter();
    let mut out = Vec::new();
    while let Some(b) = it.next() {
        out.push(b);
    }
    out
}

fn data_addresses(a: &ArenaAllocator) -> Vec<usize> {
    blocks(a).iter().map(|b| b.data).collect()
}

#[test]
fn first_block_goes_at_base() {
    let mut a = arena();
    // round_up(0x1000 + 24, 4)
    assert_eq!(a.allocate(16, 4), Ok(0x1018));
    let b = blocks(&a);
    assert_eq!(b, vec![Block { header: 0x1000, data: 0x1018, size: 16, align: 4 }]);
}

#[test]
fn first_block_padding_for_large_alignment() {
    let mut a = arena();
    assert_eq!(a.allocate(16, 64), Ok(0x1040));
    assert_eq!(blocks(&a)[0].header, 0x1000);
}

#[test]
fn freed_space_at_the_base_is_reused() {
    let mut a = arena();
    let first = a.allocate(8, 8).unwrap();
    let second = a.allocate(8, 8).unwrap();
    assert_eq!((first, second), (0x1018, 0x1038));
    assert_eq!(a.deallocate(first), Ok(()));
    // The gap between the base and the second header holds a header and 4 bytes.
    assert_eq!(a.allocate(4, 4), Ok(0x1018));
    assert_eq!(data_addresses(&a), vec![0x1018, 0x1038]);
    assert_eq!(blocks(&a)[0].header, 0x1000);
}

#[test]
fn too_small_space_at_the_base_is_skipped() {
    let mut a = arena();
    let first = a.allocate(8, 8).unwrap();
    let second = a.allocate(8, 8).unwrap();
    a.deallocate(first).unwrap();
    // 16 bytes after a 24-byte header end past the second header at 0x1020.
    assert_eq!(a.allocate(16, 8), Ok(0x1058));
    assert_eq!(data_addresses(&a), vec![second, 0x1058]);
}

#[test]
fn gap_after_a_block_is_reused() {
    let mut a = arena();
    let x = a.allocate(32, 8).unwrap();
    let y = a.allocate(32, 8).unwrap();
    let z = a.allocate(32, 8).unwrap();
    assert_eq!((x, y, z), (0x1018, 0x1050, 0x1088));
    assert_eq!(a.deallocate(y), Ok(()));
    assert_eq!(a.allocate(16, 8), Ok(y));
    assert_eq!(data_addresses(&a), vec![x, y, z]);
}

#[test]
fn too_small_gap_is_skipped() {
    let mut a = arena();
    let _x = a.allocate(32, 8).unwrap();
    let y = a.allocate(32, 8).unwrap();
    let z = a.allocate(32, 8).unwrap();
    a.deallocate(y).unwrap();
    // 64 bytes do not fit between the first and third block.
    assert_eq!(a.allocate(64, 8), Ok(0x10c0));
    assert_eq!(data_addresses(&a), vec![0x1018, z, 0x10c0]);
}

#[test]
fn gap_respects_requested_alignment() {
    let mut a = arena();
    let _x = a.allocate(32, 8).unwrap();
    let y = a.allocate(200, 8).unwrap();
    let _z = a.allocate(8, 8).unwrap();
    a.deallocate(y).unwrap();
    // The header goes at 0x1038; its data is rounded up from 0x1050 to 0x1080.
    assert_eq!(a.allocate(16, 128), Ok(0x1080));
    assert_eq!(blocks(&a)[1].header, 0x1038);
}

#[test]
fn returned_addresses_are_aligned() {
    let mut a = arena();
    let mut align = 1usize;
    while align <= 4096 {
        let p = a.allocate(3, align).unwrap();
        assert_eq!(p % align, 0);
        align *= 2;
    }
    assert_eq!(a.count_allocations(), 13);
}

#[test]
fn blocks_are_ordered_and_disjoint() {
    let mut a = arena();
    let mut live = Vec::new();
    for i in 0..20usize {
        live.push(a.allocate(i * 7 + 1, 1 << (i % 5)).unwrap());
    }
    for i in (0..20).step_by(3) {
        a.deallocate(live[i]).unwrap();
    }
    for i in 0..10usize {
        a.allocate(i + 1, 4).unwrap();
    }
    let cfg = a.config();
    let b = blocks(&a);
    for w in b.windows(2) {
        let end = (w[0].data + w[0].size + cfg.header_align - 1) & !(cfg.header_align - 1);
        assert!(w[0].header < w[1].header);
        assert!(end <= w[1].header);
    }
}

#[test]
fn allocate_then_free_restores_the_list() {
    let mut a = arena();
    a.allocate(10, 2).unwrap();
    a.allocate(100, 16).unwrap();
    let before = blocks(&a);
    let p = a.allocate(40, 8).unwrap();
    assert_eq!(a.count_allocations(), 3);
    assert_eq!(a.deallocate(p), Ok(()));
    assert_eq!(blocks(&a), before);
    assert_eq!(a.count_allocations(), 2);
}

#[test]
fn free_on_empty_list_is_invalid() {
    let mut a = arena();
    assert_eq!(a.deallocate(0x1018), Err(InvalidFree { address: 0x1018 }));
    assert_eq!(a.count_allocations(), 0);
}

#[test]
fn free_of_foreign_address_is_invalid() {
    let mut a = arena();
    let p = a.allocate(16, 8).unwrap();
    let before = blocks(&a);
    assert_eq!(a.deallocate(p + 1), Err(InvalidFree { address: p + 1 }));
    assert_eq!(a.deallocate(p - 1), Err(InvalidFree { address: p - 1 }));
    assert_eq!(a.deallocate(0x1000), Err(InvalidFree { address: 0x1000 }));
    assert_eq!(blocks(&a), before);
}

#[test]
fn double_free_is_invalid() {
    let mut a = arena();
    let p = a.allocate(16, 8).unwrap();
    assert_eq!(a.deallocate(p), Ok(()));
    assert_eq!(a.deallocate(p), Err(InvalidFree { address: p }));
}

#[test]
fn free_of_last_block_empties_the_list() {
    let mut a = arena();
    let p = a.allocate(16, 8).unwrap();
    a.deallocate(p).unwrap();
    assert_eq!(a.count_allocations(), 0);
    // An empty list starts over at the base.
    assert_eq!(a.allocate(16, 4), Ok(0x1018));
}

#[test]
fn non_power_of_two_alignment_is_rejected() {
    let mut a = arena();
    assert_eq!(a.allocate(8, 0), Err(AllocError::InvalidAlignment));
    assert_eq!(a.allocate(8, 3), Err(AllocError::InvalidAlignment));
    assert_eq!(a.allocate(8, 12), Err(AllocError::InvalidAlignment));
    assert_eq!(a.count_allocations(), 0);
}

#[test]
fn arena_at_top_of_address_space_is_exhausted() {
    let cfg = ArenaConfig { base: usize::MAX - 40, header_size: 24, header_align: 8 };
    let mut a = ArenaAllocator::new(cfg).unwrap();
    assert_eq!(a.allocate(64, 8), Err(AllocError::ArenaExhausted));
    assert_eq!(a.count_allocations(), 0);
}

#[test]
fn growth_past_the_top_is_exhausted() {
    let cfg = ArenaConfig { base: usize::MAX - 200, header_size: 24, header_align: 8 };
    let mut a = ArenaAllocator::new(cfg).unwrap();
    let p = a.allocate(8, 8).unwrap();
    assert_eq!(a.allocate(200, 8), Err(AllocError::ArenaExhausted));
    assert_eq!(data_addresses(&a), vec![p]);
}

#[test]
fn invalid_configurations_are_refused() {
    assert!(ArenaAllocator::new(ArenaConfig { base: 0, header_size: 0, header_align: 8 }).is_none());
    assert!(ArenaAllocator::new(ArenaConfig { base: 0, header_size: 24, header_align: 6 }).is_none());
    assert!(ArenaAllocator::new(ArenaConfig { base: 0, header_size: 24, header_align: 0 }).is_none());
    assert!(ArenaAllocator::new(ArenaConfig { base: 0, header_size: 1, header_align: 1 }).is_some());
}

#[test]
fn free_space_between_and_after_blocks() {
    let mut a = arena();
    let x = a.allocate(32, 8).unwrap();
    let y = a.allocate(32, 8).unwrap();
    let _z = a.allocate(32, 8).unwrap();
    a.deallocate(y).unwrap();
    // First block ends at 0x1038, third header at 0x1070.
    assert_eq!(a.free_space_after(0), Some(0x38));
    // Third block: data 0x1088, 32 bytes.
    assert_eq!(a.free_space_after(1), Some(usize::MAX - 0x10a8));
    assert_eq!(a.free_space_after(2), None);
    assert_eq!(x, 0x1018);
}

#[test]
fn walk_restarts_from_the_head() {
    let mut a = arena();
    a.allocate(8, 8).unwrap();
    a.allocate(8, 8).unwrap();
    let mut it = a.iter();
    assert_eq!(it.next().map(|b| b.data), Some(0x1018));
    assert_eq!(it.next().map(|b| b.data), Some(0x1038));
    assert_eq!(it.next(), None);
    assert_eq!(it.next(), None);
    assert_eq!(a.iter().next().map(|b| b.header), Some(0x1000));
}
