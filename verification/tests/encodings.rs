use mcu_comms::bytes::{bytes_eq, u16_to_be, u32_from_be, u32_to_be, u40_from_be};

#[test]
fn big_endian_encodings() {
    assert_eq!(u16_to_be(0x1234), [0x12, 0x34]);
    assert_eq!(u32_to_be(0x0A0B_0C0D), [0x0A, 0x0B, 0x0C, 0x0D]);
    assert_eq!(u32_from_be(&[9, 0x0A, 0x0B, 0x0C, 0x0D], 1), 0x0A0B_0C0D);
    assert_eq!(u40_from_be(&[0xFF, 1, 2, 3, 4, 5], 1), 0x01_0203_0405);
    assert_eq!(u40_from_be(&[0xFF; 5], 0), 0xFF_FF_FF_FF_FF);
}

#[test]
fn byte_string_equality() {
    assert!(bytes_eq(&[1, 2, 3], &[1, 2, 3]));
    assert!(!bytes_eq(&[1, 2, 3], &[1, 2, 4]));
    assert!(!bytes_eq(&[1, 2], &[1, 2, 3]));
    assert!(bytes_eq(&[], &[]));
}
