use lunamisc::uint::{UInt, UIntVariant};

#[test]
fn fits_the_narrowest_width() {
    assert_eq!(UInt::fit_u64(200), UInt::U8(200));
    assert_eq!(UInt::fit_u64(256), UInt::U16(256));
    assert_eq!(UInt::fit_u64(70_000), UInt::U32(70_000));
    assert_eq!(UInt::fit_u64(1 << 40), UInt::U64(1 << 40));
}

#[test]
fn truncates_to_the_width() {
    assert_eq!(UIntVariant::U8.with_u64(0x1_23), UInt::U8(0x23));
    assert_eq!(UIntVariant::U16.with_u64(0x1_2345), UInt::U16(0x2345));
    assert_eq!(UInt::U32(9).with_u64(0x1_0000_0001), UInt::U32(1));
    assert_eq!(UIntVariant::U64.with_u64(u64::MAX), UInt::U64(u64::MAX));
}

#[test]
fn sizes_and_largest_values() {
    assert_eq!(UIntVariant::U8.size(), 1);
    assert_eq!(UIntVariant::U16.size(), 2);
    assert_eq!(UIntVariant::U32.size(), 4);
    assert_eq!(UIntVariant::U64.size(), 8);
    assert_eq!(UIntVariant::U16.max_value(), UInt::U16(u16::MAX));
    assert_eq!(UInt::U32(5).size(), 4);
    assert_eq!(UInt::U32(5).to_variant(), UIntVariant::U32);
}

#[test]
fn big_endian_bytes_round_trip() {
    let b = UInt::U32(0x0102_0304).to_be_bytes();
    assert_eq!(b.as_slice(), &[1, 2, 3, 4]);
    assert_eq!(b.to_u64(), 0x0102_0304);
    assert_eq!(b.to_uint(), UInt::U32(0x0102_0304));
    let mut out = [0u8; 4];
    assert!(b.copy_to_slice(&mut out).is_ok());
    assert_eq!(out, [1, 2, 3, 4]);
    let mut wrong = [0u8; 3];
    assert!(UInt::U32(7).to_be_bytes().copy_to_slice(&mut wrong).is_err());
    assert_eq!(wrong, [0, 0, 0]);
}

#[test]
fn reads_a_slice_of_a_width() {
    assert_eq!(UIntVariant::U8.try_with_slice(&[0x12, 0x34]).unwrap(), UInt::U16(0x1234));
    assert_eq!(UIntVariant::U32.try_with_slice(&[0xab]).unwrap(), UInt::U8(0xab));
    assert!(UIntVariant::U8.try_with_slice(&[1, 2, 3]).is_err());
    assert_eq!(UIntVariant::U8.try_with_slice(&[0, 0, 0, 0, 0, 0, 1, 0]).unwrap(), UInt::U64(256));
}
