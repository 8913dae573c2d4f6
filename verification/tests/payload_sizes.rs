use mcu_comms::payload_size::{
    frame_size, is_pointer_width_type, max_size, mentions_pointer_width_type, Empty, MaxPayloadSize, MaxSize, PayloadShape,
    SizeError,
};

#[test]
fn primitive_max_sizes() {
    assert_eq!(<u8 as MaxSize>::MAX_SIZE, 1);
    assert_eq!(<u16 as MaxSize>::MAX_SIZE, 3);
    assert_eq!(<u32 as MaxSize>::MAX_SIZE, 5);
    assert_eq!(<u64 as MaxSize>::MAX_SIZE, 10);
    assert_eq!(<i128 as MaxSize>::MAX_SIZE, 19);
    assert_eq!(<[u16; 4] as MaxSize>::MAX_SIZE, 12);
    assert_eq!(<(u8, u32, bool) as MaxSize>::MAX_SIZE, 7);
    assert_eq!(<Result<u8, u16> as MaxSize>::MAX_SIZE, 5);
    assert_eq!(<usize as MaxSize>::MAX_SIZE, (usize::BITS as usize + 6) / 7);
    assert_eq!(<Empty as MaxPayloadSize>::FRAME_SIZE, 32);
}

#[test]
fn struct_size_is_sum_of_fields() {
    assert_eq!(max_size(&PayloadShape::Struct(vec![3, 5, 1])), Ok(9));
    assert_eq!(max_size(&PayloadShape::Struct(vec![])), Ok(0));
    assert_eq!(
        max_size(&PayloadShape::Struct(vec![usize::MAX, 1])),
        Err(SizeError::Overflow)
    );
}

#[test]
fn enum_size_is_largest_variant_plus_discriminant() {
    assert_eq!(max_size(&PayloadShape::Enum(vec![vec![], vec![]])), Ok(5));
    assert_eq!(max_size(&PayloadShape::Enum(vec![vec![3], vec![1, 1, 1, 1], vec![2]])), Ok(9));
    assert_eq!(
        max_size(&PayloadShape::Enum(vec![vec![usize::MAX - 4]])),
        Err(SizeError::Overflow)
    );
    assert_eq!(max_size(&PayloadShape::Union), Err(SizeError::Unsupported));
}

#[test]
fn frame_size_adds_header_and_tag() {
    assert_eq!(frame_size(9), Some(41));
    assert_eq!(frame_size(usize::MAX - 31), None);
}

#[test]
fn pointer_width_types_are_recognized() {
    assert!(is_pointer_width_type(b"usize"));
    assert!(is_pointer_width_type(b"isize"));
    assert!(!is_pointer_width_type(b"u32"));
    assert!(!is_pointer_width_type(b"usizes"));
}

#[test]
fn pointer_width_types_are_found_when_nested() {
    assert!(mentions_pointer_width_type(b"usize"));
    assert!(mentions_pointer_width_type(b"[usize; 2]"));
    assert!(mentions_pointer_width_type(b"(u8, isize)"));
    assert!(mentions_pointer_width_type(b"Option<usize>"));
    assert!(!mentions_pointer_width_type(b"[u32; 2]"));
    assert!(!mentions_pointer_width_type(b"my_usize"));
    assert!(!mentions_pointer_width_type(b"usize2"));
    assert!(!mentions_pointer_width_type(b"(u8, i64)"));
}
