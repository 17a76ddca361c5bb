use gfield::wrapping_add_signed::WrappingAddSigned;

#[test]
fn test_wrapping_add_i32() {
    assert_eq!((0 as usize).wrapping_add_i32(-1), usize::MAX);
    assert_eq!(usize::MAX.wrapping_add_i32(1), 0);
}

#[test]
fn test_wrapping_add_i64() {
    assert_eq!((0 as usize).wrapping_add_i64(-1), usize::MAX);
    assert_eq!(usize::MAX.wrapping_add_i64(1 as i64), 0);
}

#[test]
fn test_wrapping_add_u32_boundaries() {
    assert_eq!(0u32.wrapping_add_i32(-1), u32::MAX);
    assert_eq!(u32::MAX.wrapping_add_i32(1), 0);
    assert_eq!(0u32.wrapping_add_i64(-1), u32::MAX);
    assert_eq!(u32::MAX.wrapping_add_i64(1), 0);
}

#[test]
fn test_wrapping_add_u64_boundaries() {
    assert_eq!(0u64.wrapping_add_i32(-1), u64::MAX);
    assert_eq!(u64::MAX.wrapping_add_i32(1), 0);
    assert_eq!(0u64.wrapping_add_i64(-1), u64::MAX);
    assert_eq!(u64::MAX.wrapping_add_i64(1), 0);
}

#[test]
fn test_wrapping_add_midrange() {
    assert_eq!(10u32.wrapping_add_i32(-3), 7);
    assert_eq!(10u64.wrapping_add_i64(32), 42);
    assert_eq!(100usize.wrapping_add_i32(-100), 0);
}

#[test]
fn test_wrapping_add_extreme_deltas() {
    assert_eq!(0u64.wrapping_add_i32(i32::MIN), 0xffff_ffff_8000_0000u64);
    assert_eq!(1u64.wrapping_add_i64(i64::MIN), 0x8000_0000_0000_0001u64);
    assert_eq!(5u32.wrapping_add_i64(1i64 << 32), 5);
    assert_eq!(5u32.wrapping_add_i64(-(1i64 << 32) - 1), 4);
    assert_eq!(0u32.wrapping_add_i64(i64::MIN), 0);
    assert_eq!(3u32.wrapping_add_i64(i64::MIN + 1), 4);
}
