use dhara_rs::bytes::{dhara_r16, dhara_r32, dhara_w16, dhara_w32};

#[test]
fn check_r16() {
    let a = [0x05u8, 0x06u8, 0x17u8, 0x03u8];
    let b = dhara_r16(&a[0..2]);
    assert_eq!(b, 0x0605);
}

#[test]
fn check_w16() {
    let mut a = [0x05u8, 0x06u8, 0x17u8, 0x03u8];
    dhara_w16(&mut a[0..2], 0xAA55);
    assert_eq!(a, [0x55u8, 0xAAu8, 0x17u8, 0x03u8]);
}

#[test]
fn check_r32() {
    let a = [0x05u8, 0x06u8, 0x17u8, 0x03u8];
    let b = dhara_r32(&a[..]);
    assert_eq!(b, 0x03170605);
}

#[test]
fn check_w32() {
    let mut a = [0x05u8, 0x06u8, 0x17u8, 0x03u8];
    dhara_w32(&mut a[..], 0xAA550011);
    assert_eq!(a, [0x11u8, 0x00u8, 0x55u8, 0xAAu8]);
}

#[test]
fn round_trip_32() {
    let mut a = [0u8; 6];
    for &v in [0u32, 1, 0xff, 0x100, 0x12345678, 0xffffffff].iter() {
        dhara_w32(&mut a[..], v);
        assert_eq!(dhara_r32(&a[..]), v);
    }
    // Bytes beyond the first four are untouched.
    let mut b = [9u8; 6];
    dhara_w32(&mut b[..], 0);
    assert_eq!(b, [0, 0, 0, 0, 9, 9]);
}

#[test]
fn round_trip_16() {
    let mut a = [0u8; 3];
    for &v in [0u16, 1, 0xff, 0x100, 0xbeef, 0xffff].iter() {
        dhara_w16(&mut a[..], v);
        assert_eq!(dhara_r16(&a[..]), v);
    }
    let mut b = [0x12u8, 0x34u8, 7u8];
    let v = dhara_r16(&b[..]);
    dhara_w16(&mut b[..], v);
    assert_eq!(b, [0x12u8, 0x34u8, 7u8]);
}
