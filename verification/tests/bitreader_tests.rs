use demostats::bitreader::{string_from_nilslice, BitReader};

#[test]
fn read_one_byte_bits() {
    let data = &[0b1001_0110u8];
    let mut reader = BitReader::new(data.as_ref());
    assert_eq!(0, reader.read_bits_u32(1).unwrap());
    assert_eq!(0b1011, reader.read_bits_u32(4).unwrap());
    assert_eq!(0b100, reader.read_bits_u32(3).unwrap());
    assert!(reader.read_bits_u32(1).is_err());
}

#[test]
fn read_multibyte_bits() {
    let data: &[u8] = &[0b1001_0110, 0b0101_0101, 0b1000_1111];
    let mut reader = BitReader::new(data);
    assert_eq!(0b0, reader.read_bits_u32(1).unwrap());
    assert_eq!(0b1011, reader.read_bits_u32(4).unwrap());
    assert_eq!(0b0_1100, reader.read_bits_u32(5).unwrap());
    assert_eq!(0b00_1111_0101_01, reader.read_bits_u32(12).unwrap());
    assert!(reader.read_bits_u32(3).is_err());
}

#[test]
fn read_bits_and_byte() {
    let data: &[u8] = &[0b1001_0110, 0b0101_0101];
    let mut reader = BitReader::new(data);
    assert_eq!(0b1001_0110, reader.read_bits_u32(8).unwrap());
    assert_eq!(0b0101_0101, reader.read_u8().unwrap());
}

#[test]
fn unaligned_read() {
    let data: &[u8] = &[0b1001_0110, 0b0101_0101];
    let mut reader = BitReader::new(data);
    assert_eq!(0b0110, reader.read_bits_u32(4).unwrap());
    assert_eq!(0b0101_1001, reader.read_u8().unwrap());
    assert_eq!(0b0101, reader.flush_bits().unwrap());
}

#[test]
fn flush_bits() {
    let data: &[u8] = &[0b1001_0110, 0b0101_0101];
    let mut reader = BitReader::new(data);
    assert_eq!(0b0110, reader.read_bits_u32(4).unwrap());
    assert_eq!(0b1001, reader.flush_bits().unwrap());
    assert_eq!(0b0101_0101, reader.read_u8().unwrap());
}

#[test]
fn nil_slice_stops_at_first_zero() {
    assert_eq!("abc", string_from_nilslice(b"abc\0def"));
    assert_eq!("", string_from_nilslice(b"\0xyz"));
    assert_eq!("xyz", string_from_nilslice(b"xyz"));
}

#[test]
fn lossy_decode_replaces_invalid_bytes() {
    assert_eq!("\u{FFFD}", string_from_nilslice(&[0xFF]));
}

#[test]
fn big_endian_reads() {
    let data: &[u8] = &[0x12, 0x34, 0x56, 0x78];
    let mut reader = BitReader::new(data);
    assert_eq!(0x1234_5678, reader.read_u32_be().unwrap());
    let data2: &[u8] = &[0xFF, 0xFF, 0xFF, 0xFF];
    let mut reader2 = BitReader::new(data2);
    assert_eq!(-1i32, reader2.read_i32_be().unwrap());
}

#[test]
fn little_endian_reads() {
    let data: &[u8] = &[0x78, 0x56, 0x34, 0x12];
    let mut reader = BitReader::new(data);
    assert_eq!(0x1234_5678, reader.read_u32().unwrap());
}

#[test]
fn truncation_error_carries_end_offset() {
    let data: &[u8] = &[];
    let mut reader = BitReader::new(data);
    let e = reader.read_bits_u32(8).unwrap_err();
    assert_eq!(e, demostats::DemoError::Truncated { bit_offset: 0 });
}

#[test]
fn fixed_c_string_truncates_padding() {
    let data: &[u8] = &[b'h', b'i', 0, 0, 0, 0, 0, 0];
    let mut reader = BitReader::new(data);
    assert_eq!("hi", reader.read_fixed_c_string(8).unwrap());
}
