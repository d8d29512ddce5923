use makcu::ButtonMask;

#[test]
fn mask_decodes_bits() {
    let m = ButtonMask::from_byte(0x05);
    assert_eq!(
        m,
        ButtonMask { left: true, right: false, middle: true, side1: false, side2: false }
    );
    let m = ButtonMask::from_byte(0x0A);
    assert!(m.right && m.side1 && !m.left && !m.middle && !m.side2);
    assert_eq!(ButtonMask::from_byte(0), ButtonMask::default());
}

#[test]
fn mask_roundtrip_all_bytes() {
    for b in 0u8..=255 {
        assert_eq!(ButtonMask::from_byte(b).to_byte(), b & 0x1f);
    }
}

#[test]
fn mask_encode_decode_identity() {
    for b in 0u8..32 {
        let m = ButtonMask::from_byte(b);
        assert_eq!(ButtonMask::from_byte(m.to_byte()), m);
        assert!(m.to_byte() < 32);
    }
    let all = ButtonMask { left: true, right: true, middle: true, side1: true, side2: true };
    assert_eq!(all.to_byte(), 0x1f);
}
