use grib::bits::BitReader;
use grib::bytes::concat_bytes_as_u16;
use grib::bytes::concat_bytes_as_u32;
use grib::bytes::concat_bytes_as_u64;
use grib::cursor::ByteCursor;
use grib::error::DecodeError;
use grib::error::FormatError;

#[test]
fn concat_reads_big_endian() {
    let buf = [0x12u8, 0x34, 0x56, 0x78, 0x9a];
    assert_eq!(concat_bytes_as_u32(&buf, 0, 4), 0x1234_5678);
    assert_eq!(concat_bytes_as_u32(&buf, 1, 4), 0x3456_789a);
    assert_eq!(concat_bytes_as_u32(&buf, 1, 2), 0x3456);
    assert_eq!(concat_bytes_as_u32(&buf, 4, 1), 0x9a);
    assert_eq!(concat_bytes_as_u16(&buf, 3, 2), 0x789a);
    assert_eq!(concat_bytes_as_u16(&buf, 2, 1), 0x56);
}

#[test]
fn concat_of_no_bytes_is_zero() {
    let buf = [0xffu8, 0xff];
    assert_eq!(concat_bytes_as_u32(&buf, 1, 0), 0);
    assert_eq!(concat_bytes_as_u16(&buf, 2, 0), 0);
    assert_eq!(concat_bytes_as_u64(&buf, 0, 0), 0);
}

#[test]
fn concat_keeps_the_low_bits_of_a_long_field() {
    let buf = [0x01u8, 0x02, 0x03, 0x04, 0x05, 0x06, 0x07, 0x08, 0x09];
    assert_eq!(concat_bytes_as_u16(&buf, 0, 3), 0x0203);
    assert_eq!(concat_bytes_as_u32(&buf, 0, 5), 0x0203_0405);
    assert_eq!(concat_bytes_as_u64(&buf, 0, 9), 0x0203_0405_0607_0809);
    assert_eq!(concat_bytes_as_u64(&buf, 0, 8), 0x0102_0304_0506_0708);
}

#[test]
fn cursor_reads_in_order() {
    let data = [1u8, 2, 3, 4, 5, 6, 7];
    let mut f = ByteCursor::new(&data);
    assert_eq!(f.position(), 0);
    assert_eq!(f.remaining(), 7);
    assert_eq!(f.read_exact(2), Ok(&data[0..2]));
    assert_eq!(f.position(), 2);
    assert_eq!(f.read_uint(3), Ok(0x03_0405));
    assert_eq!(f.position(), 5);
    assert_eq!(f.read_uint(1), Ok(6));
    assert_eq!(f.skip(1), Ok(()));
    assert_eq!(f.remaining(), 0);
    assert_eq!(f.read_exact(0), Ok(&data[7..7]));
}

#[test]
fn cursor_fails_truncated_and_stays() {
    let data = [1u8, 2, 3];
    let mut f = ByteCursor::new(&data);
    assert_eq!(f.read_exact(4), Err(FormatError::Truncated));
    assert_eq!(f.position(), 0);
    assert_eq!(f.read_uint(4), Err(FormatError::Truncated));
    assert_eq!(f.skip(4), Err(FormatError::Truncated));
    assert_eq!(f.position(), 0);
    assert_eq!(f.read_uint(2), Ok(0x0102));
    assert_eq!(f.read_uint(2), Err(FormatError::Truncated));
    assert_eq!(f.position(), 2);
    assert_eq!(f.read_uint(1), Ok(3));
}

#[test]
fn cursor_peeks_without_moving() {
    let data = [0x10u8, 0x20, 0x30, 0x40, 0x50, 0x60, 0x70, 0x80, 0x90, 0xa0];
    let mut f = ByteCursor::new(&data);
    assert_eq!(f.skip(1), Ok(()));
    assert_eq!(f.peek_u8(0), 0x20);
    assert_eq!(f.peek_u8(8), 0xa0);
    assert_eq!(f.peek_u16(1), 0x3040);
    assert_eq!(f.peek_uint(0, 4), 0x2030_4050);
    assert_eq!(f.peek_uint(2, 3), 0x40_5060);
    assert_eq!(f.position(), 1);
    assert!(f.starts_with(&[0x20, 0x30]));
    assert!(f.starts_with(&[]));
    assert!(!f.starts_with(&[0x20, 0x31]));
    assert!(!f.starts_with(&[0x20, 0x30, 0x40, 0x50, 0x60, 0x70, 0x80, 0x90, 0xa0, 0xb0]));
    assert_eq!(f.position(), 1);
}

#[test]
fn bits_are_read_most_significant_first() {
    let data = [0b1010_0000u8];
    let mut r = BitReader::new(&data);
    assert_eq!(r.read_bits(1), Ok(1));
    assert_eq!(r.read_bits(1), Ok(0));
    assert_eq!(r.read_bits(1), Ok(1));
    assert_eq!(r.read_bits(5), Ok(0));
    assert_eq!(r.read_bits(1), Err(DecodeError::Truncated));
}

#[test]
fn bits_straddle_byte_boundaries() {
    let data = [0b1011_0011u8, 0b0101_1100, 0b1111_0000];
    let mut r = BitReader::new(&data);
    assert_eq!(r.read_bits(3), Ok(0b101));
    assert_eq!(r.read_bits(7), Ok(0b100_1101));
    assert_eq!(r.read_bits(12), Ok(0b0111_0011_1100));
    assert_eq!(r.read_bits(2), Ok(0));
    assert!(!r.has_bits(1));
    assert!(r.has_bits(0));
}

#[test]
fn bits_of_full_width() {
    let data = [0xdeu8, 0xad, 0xbe, 0xef, 0x80];
    let mut r = BitReader::new(&data);
    assert_eq!(r.read_bits(32), Ok(0xdead_beef));
    assert_eq!(r.read_bits(0), Ok(0));
    assert_eq!(r.read_bits(1), Ok(1));
    let mut shifted = BitReader::new(&data);
    assert_eq!(shifted.read_bits(4), Ok(0xd));
    assert_eq!(shifted.read_bits(32), Ok(0xeadb_eef8));
}

#[test]
fn bits_fail_truncated_and_stay() {
    let data = [0xffu8, 0x0f];
    let mut r = BitReader::new(&data);
    assert_eq!(r.read_bits(12), Ok(0xff0));
    assert_eq!(r.read_bits(5), Err(DecodeError::Truncated));
    assert!(r.has_bits(4));
    assert!(!r.has_bits(5));
    assert_eq!(r.read_bits(4), Ok(0xf));
    assert_eq!(r.read_bits(32), Err(DecodeError::Truncated));
    let empty: [u8; 0] = [];
    let mut none = BitReader::new(&empty);
    assert_eq!(none.read_bits(0), Ok(0));
    assert_eq!(none.read_bits(1), Err(DecodeError::Truncated));
}
