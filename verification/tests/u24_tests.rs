use g16core::u24::{U24, U24_MAX};

#[test]
fn test_u24_byte_round_trip() {
    let x = U24::new([0x12, 0x34, 0x56]);
    assert_eq!(x.to_bytes(), [0x12, 0x34, 0x56]);
    assert_eq!(x.to_u32(), 0x563412);
    let y = U24::from_u32(0x563412);
    assert_eq!(y.to_bytes(), [0x12, 0x34, 0x56]);
    assert_eq!(x, y);
}

#[test]
fn test_u24_from_u32_keeps_low_24_bits() {
    assert_eq!(U24::from_u32(0).to_u32(), 0);
    assert_eq!(U24::from_u32(U24_MAX).to_u32(), U24_MAX);
    assert_eq!(U24::from_u32(0x0100_0000).to_u32(), 0);
    assert_eq!(U24::from_u32(0xFF00_0001).to_u32(), 1);
}

#[test]
fn test_u24_checked_add() {
    let a = U24::from_u32(0xFFFFFE);
    let one = U24::from_u32(1);
    assert_eq!(a.checked_add(one).unwrap().to_u32(), 0xFFFFFF);
    assert!(U24::from_u32(U24_MAX).checked_add(one).is_none());
    assert_eq!(U24::from_u32(40).checked_add(U24::from_u32(2)).unwrap().to_u32(), 42);
}

#[test]
fn test_u24_checked_sub() {
    assert_eq!(U24::from_u32(42).checked_sub(U24::from_u32(2)).unwrap().to_u32(), 40);
    assert!(U24::from_u32(1).checked_sub(U24::from_u32(2)).is_none());
}

#[test]
fn test_u24_checked_mul() {
    assert_eq!(U24::from_u32(0xFFF).checked_mul(U24::from_u32(0x1001)).unwrap().to_u32(), 0xFFFFFF);
    assert!(U24::from_u32(0x1000).checked_mul(U24::from_u32(0x1000)).is_none());
    assert_eq!(U24::from_u32(6).checked_mul(U24::from_u32(7)).unwrap().to_u32(), 42);
}

#[test]
fn test_u24_checked_div_rem() {
    assert_eq!(U24::from_u32(45).checked_div(U24::from_u32(7)).unwrap().to_u32(), 6);
    assert_eq!(U24::from_u32(45).checked_rem(U24::from_u32(7)).unwrap().to_u32(), 3);
    assert!(U24::from_u32(45).checked_div(U24::from_u32(0)).is_none());
    assert!(U24::from_u32(45).checked_rem(U24::from_u32(0)).is_none());
}
