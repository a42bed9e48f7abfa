use iso9660_rs::types::{Endian, NativeEndian, U16, U32, U64};

#[test]
fn test_u16() {
    let mut value = U16::<NativeEndian>::new(0x1234);
    assert_eq!(value.get(), 0x1234);
    value.set(0x5678);
    assert_eq!(value.get(), 0x5678);
}

#[test]
fn test_u32() {
    let mut value = U32::<NativeEndian>::new(0x12345678);
    assert_eq!(value.get(), 0x12345678);
    value.set(0x9abcdef0);
    assert_eq!(value.get(), 0x9abcdef0);
}

#[test]
fn test_u64() {
    let mut value = U64::<NativeEndian>::new(0x123456789abcdef0);
    assert_eq!(value.get(), 0x123456789abcdef0);
    value.set(0x0123456789abcdef);
    assert_eq!(value.get(), 0x0123456789abcdef);
}

#[test]
fn types_test_u16() {
    let mut value = U16::<NativeEndian>::new(0x1234);
    assert_eq!(value.get(), 0x1234);
    value.set(0x5678);
    assert_eq!(value.get(), 0x5678);
}

#[test]
fn types_test_u32() {
    let mut value = U32::<NativeEndian>::new(0x12345678);
    assert_eq!(value.get(), 0x12345678);
    value.set(0x9abcdef0);
    assert_eq!(value.get(), 0x9abcdef0);
}

#[test]
fn types_test_u64() {
    let mut value = U64::<NativeEndian>::new(0x123456789abcdef0);
    assert_eq!(value.get(), 0x123456789abcdef0);
    value.set(0x0123456789abcdef);
    assert_eq!(value.get(), 0x0123456789abcdef);
}
