use fsb5_at9::wire::{
    get_array16, get_array4, get_array8, get_u32_le, has_bytes, push_bytes, push_u16_le,
    push_u32_le, read_u32_be, read_u32_le, read_u64_le, read_u8,
};

#[test]
fn little_endian_reads() {
    let data = [0x01u8, 0x02, 0x03, 0x04, 0x05, 0x06, 0x07, 0x08, 0x09];
    assert_eq!(read_u8(&data, 0), Some(0x01));
    assert_eq!(read_u8(&data, 8), Some(0x09));
    assert_eq!(read_u8(&data, 9), None);
    assert_eq!(read_u32_le(&data, 0), Some(0x0403_0201));
    assert_eq!(read_u32_le(&data, 5), Some(0x0908_0706));
    assert_eq!(read_u32_le(&data, 6), None);
    assert_eq!(get_u32_le(&data, 1), 0x0504_0302);
    assert_eq!(read_u64_le(&data, 0), Some(0x0807_0605_0403_0201));
    assert_eq!(read_u64_le(&data, 1), Some(0x0908_0706_0504_0302));
    assert_eq!(read_u64_le(&data, 2), None);
}

#[test]
fn reads_far_behind_the_end_give_nothing() {
    let data = [0u8; 4];
    assert_eq!(read_u8(&data, usize::MAX), None);
    assert_eq!(read_u32_le(&data, usize::MAX), None);
    assert_eq!(read_u32_le(&data, usize::MAX - 3), None);
    assert_eq!(read_u64_le(&data, usize::MAX - 2), None);
    assert!(!has_bytes(&data, usize::MAX, usize::MAX));
    assert!(has_bytes(&data, 4, 0));
    assert!(has_bytes(&data, 0, 4));
    assert!(!has_bytes(&data, 1, 4));
}

#[test]
fn big_endian_read() {
    assert_eq!(read_u32_be(&[0xFE, 0x12, 0x34, 0x58]), 0xFE12_3458);
    assert_eq!(read_u32_be(&[0x00, 0x00, 0x00, 0x01]), 1);
}

#[test]
fn high_bits_survive() {
    let data = [0xFFu8; 8];
    assert_eq!(read_u32_le(&data, 0), Some(u32::MAX));
    assert_eq!(read_u64_le(&data, 0), Some(u64::MAX));
    assert_eq!(read_u32_be(&[0xFF; 4]), u32::MAX);
    let data = [0, 0, 0, 0x80, 0, 0, 0, 0x80];
    assert_eq!(read_u64_le(&data, 0), Some(0x8000_0000_8000_0000));
}

#[test]
fn arrays_are_copied_from_their_place() {
    let data: Vec<u8> = (0..32u8).collect();
    assert_eq!(get_array4(&data, 3), [3, 4, 5, 6]);
    assert_eq!(get_array8(&data, 24), [24, 25, 26, 27, 28, 29, 30, 31]);
    assert_eq!(
        get_array16(&data, 10),
        [10, 11, 12, 13, 14, 15, 16, 17, 18, 19, 20, 21, 22, 23, 24, 25]
    );
}

#[test]
fn little_endian_writes() {
    let mut out = vec![0xAAu8];
    push_u16_le(&mut out, 0xFFFE);
    push_u32_le(&mut out, 0x0102_0304);
    push_u32_le(&mut out, u32::MAX);
    push_u16_le(&mut out, 0);
    push_bytes(&mut out, &[7, 8, 9]);
    push_bytes(&mut out, &[]);
    assert_eq!(
        out,
        vec![0xAA, 0xFE, 0xFF, 0x04, 0x03, 0x02, 0x01, 0xFF, 0xFF, 0xFF, 0xFF, 0, 0, 7, 8, 9]
    );
}

#[test]
fn what_is_written_reads_back() {
    for value in [0u32, 1, 255, 256, 65535, 65536, 0x1234_5678, 0xFEDC_BA98, u32::MAX] {
        let mut out = Vec::new();
        push_u32_le(&mut out, value);
        assert_eq!(out, value.to_le_bytes().to_vec());
        assert_eq!(read_u32_le(&out, 0), Some(value));
    }
    for value in [0u16, 1, 255, 256, 0xFFFE, u16::MAX] {
        let mut out = Vec::new();
        push_u16_le(&mut out, value);
        assert_eq!(out, value.to_le_bytes().to_vec());
    }
}
