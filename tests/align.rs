use simple_allocator::{is_power_of_two, round_up, ArenaConfig, Block};

#[test]
fn powers_of_two_are_recognised() {
    for k in 0..usize::BITS {
        assert!(is_power_of_two(1usize << k));
    }
    for a in [0usize, 3, 5, 6, 7, 12, 100, usize::MAX] {
        assert!(!is_power_of_two(a));
    }
}

#[test]
fn rounding_up_to_an_alignment() {
    assert_eq!(round_up(0x1018, 4), Some(0x1018));
    assert_eq!(round_up(0x1018, 16), Some(0x1020));
    assert_eq!(round_up(0x1019, 8), Some(0x1020));
    assert_eq!(round_up(0, 4096), Some(0));
    assert_eq!(round_up(17, 1), Some(17));
}

#[test]
fn rounding_that_would_wrap_is_none() {
    assert_eq!(round_up(usize::MAX, 2), None);
    assert_eq!(round_up(usize::MAX - 6, 8), None);
    assert_eq!(round_up(usize::MAX, 1), Some(usize::MAX));
}

#[test]
fn placing_a_block_pads_the_header() {
    let cfg = ArenaConfig { base: 0x1000, header_size: 24, header_align: 8 };
    let b = cfg.place_block(0x1000, 16, 32).unwrap();
    assert_eq!(b, Block { header: 0x1000, data: 0x1020, size: 16, align: 32 });
    assert_eq!(cfg.aligned_end(&b), 0x1030);
    let c = cfg.place_block(0x1030, 5, 1).unwrap();
    assert_eq!(c.data, 0x1048);
    assert_eq!(cfg.aligned_end(&c), 0x1050);
}

#[test]
fn placing_past_the_top_is_none() {
    let cfg = ArenaConfig { base: 0, header_size: 24, header_align: 8 };
    assert_eq!(cfg.place_block(usize::MAX - 10, 1, 1), None);
    assert_eq!(cfg.place_block(usize::MAX - 40, 16, 8), None);
}
