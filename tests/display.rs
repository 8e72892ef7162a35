use simple_allocator::{convert_str, Color};

#[test]
fn colour_constructors() {
    assert_eq!(Color::from_rgb(1, 2, 3).get_inner(), &[1, 2, 3, 255]);
    assert_eq!(Color::from_rgba(1, 2, 3, 4).get_inner(), &[1, 2, 3, 4]);
    assert_eq!(Color::from_rgb_additive(1, 2, 3).get_inner(), &[1, 2, 3, 0]);
    assert_eq!(Color::clear().get_inner(), &[0, 0, 0, 0]);
}

#[test]
fn colour_alpha() {
    assert!(Color::from_rgb(9, 9, 9).is_opaque());
    assert!(!Color::from_rgba(9, 9, 9, 254).is_opaque());
    assert_eq!(Color::from_rgba(9, 9, 9, 77).get_alpha(), 77);
}

#[test]
fn colour_packing() {
    assert_eq!(Color::from_rgb(1, 2, 3).to_u32(), 0x0003_0201);
    assert_eq!(Color::from_u32(0xff_abcdef).get_inner(), &[0xef, 0xcd, 0xab, 255]);
}

#[test]
fn text_to_tiles() {
    assert_eq!(convert_str(b"Ab0 !#/~?"), [33, 66, 16, 0, 1, 3, 15, 94, 0]);
    assert_eq!(convert_str(b"z9Z"), [90, 25, 58]);
}
