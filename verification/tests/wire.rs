use heir::text::push_decimal;
use heir::wire::{read_u32, read_u64, read_u8, write_u32, write_u64};

#[test]
fn write_u32_is_little_endian() {
    let mut writer = vec![9u8];
    write_u32(&mut writer, 0x0102_0304);
    assert_eq!(writer, vec![9, 4, 3, 2, 1]);
    write_u32(&mut writer, u32::MAX);
    assert_eq!(writer, vec![9, 4, 3, 2, 1, 255, 255, 255, 255]);
}

#[test]
fn write_u64_is_little_endian() {
    let mut writer = Vec::new();
    write_u64(&mut writer, 0x0102_0304_0506_0708);
    assert_eq!(writer, vec![8, 7, 6, 5, 4, 3, 2, 1]);
    assert_eq!(writer, 0x0102_0304_0506_0708u64.to_le_bytes().to_vec());
}

#[test]
fn read_u8_takes_one_byte() {
    let data = [7u8, 8];
    let mut reader = &data[..];
    assert_eq!(read_u8(&mut reader), Some(7));
    assert_eq!(read_u8(&mut reader), Some(8));
    assert_eq!(read_u8(&mut reader), None);
    assert!(reader.is_empty());
}

#[test]
fn read_u32_is_little_endian_and_leaves_the_rest() {
    let data = [4u8, 3, 2, 1, 0xAA, 0xBB];
    let mut reader = &data[..];
    assert_eq!(read_u32(&mut reader), Some(0x0102_0304));
    assert_eq!(reader, &[0xAA, 0xBB][..]);
    assert_eq!(read_u32(&mut reader), None);
    assert_eq!(reader, &[0xAA, 0xBB][..]);
}

#[test]
fn read_u64_is_little_endian_and_leaves_the_rest() {
    let data = [8u8, 7, 6, 5, 4, 3, 2, 1, 0xAA];
    let mut reader = &data[..];
    assert_eq!(read_u64(&mut reader), Some(0x0102_0304_0506_0708));
    assert_eq!(reader, &[0xAA][..]);
    let short = [1u8; 7];
    let mut reader = &short[..];
    assert_eq!(read_u64(&mut reader), None);
    assert_eq!(reader.len(), 7);
}

#[test]
fn integers_read_back_as_written() {
    for x in [0u32, 1, 255, 256, 0xDEAD_BEEF, u32::MAX] {
        let mut writer = Vec::new();
        write_u32(&mut writer, x);
        let mut reader = &writer[..];
        assert_eq!(read_u32(&mut reader), Some(x));
        assert!(reader.is_empty());
    }
    for x in [0u64, 1, 1621234567, 0xDEAD_BEEF_0BAD_F00D, u64::MAX] {
        let mut writer = Vec::new();
        write_u64(&mut writer, x);
        let mut reader = &writer[..];
        assert_eq!(read_u64(&mut reader), Some(x));
        assert!(reader.is_empty());
    }
}

#[test]
fn push_decimal_writes_base_ten() {
    for n in [0u64, 7, 9, 10, 11, 99, 100, 1905, 4294967295, u64::MAX] {
        let mut text = String::from("n=");
        push_decimal(&mut text, n);
        assert_eq!(text, format!("n={}", n));
    }
}
