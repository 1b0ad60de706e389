use protodef_io::prelude::{ProtodefReader, ProtodefWriter, ReadError};

#[test]
pub fn io_varint() {
    let number: u64 = 12345679;
    let mut vec: Vec<u8> = Vec::new();
    vec.write_varint(number).unwrap();
    let (value, _size) = vec.read_varint(0).unwrap();
    assert_eq!(number, value);
}

#[test]
pub fn string() {
    let str = "Lorem ipsum dolor sit amet, consectetur adipiscing elit, sed do eiusmod tempor incididunt ut labore et dolore magna aliqua.";
    let mut vec: Vec<u8> = Vec::new();
    vec.write_string(str).unwrap();
    let (value, _size) = vec.read_string(0).unwrap();
    assert_eq!(str, value);
}

#[test]
pub fn zigzag32() {
    let i = i32::MIN;
    let mut vec: Vec<u8> = Vec::new();
    vec.write_zigzag32(i).unwrap();
    let (value, _size) = vec.read_zigzag32(0).unwrap();
    assert_eq!(i, value);
}

#[test]
pub fn zigzag64() {
    let i = i64::MIN;
    let mut vec: Vec<u8> = Vec::new();
    vec.write_zigzag64(i).unwrap();
    let (value, _size) = vec.read_zigzag64(0).unwrap();
    assert_eq!(i, value);
}

#[test]
pub fn ref_buf() {
    let i = i32::MIN;
    let mut v: Vec<u8> = vec![];
    write_buf(&mut v, i);
    let value = read_buf(&mut v);
    assert_eq!(i, value);
}

fn write_buf(vec: &mut Vec<u8>, i_32: i32) {
    vec.write_zigzag32(i_32).unwrap();
}

fn read_buf(vec: &mut [u8]) -> i32 {
    vec.as_ref().read_zigzag32(0).unwrap().0
}

#[test]
fn varint_of_12345679_is_four_bytes() {
    let mut vec: Vec<u8> = Vec::new();
    let written = vec.write_varint(12345679).unwrap();
    assert_eq!(written, 4);
    assert_eq!(vec, vec![0xCF, 0xC2, 0xF1, 0x05]);
    assert_eq!(vec.read_varint(0), Ok((12345679, 4)));
}

#[test]
fn varint_zero_is_one_zero_byte() {
    let mut vec: Vec<u8> = Vec::new();
    assert_eq!(vec.write_varint(0), Ok(1));
    assert_eq!(vec, vec![0x00]);
    assert_eq!(vec.read_varint(0), Ok((0, 1)));
}

#[test]
fn varint_max_is_ten_bytes_ending_in_one() {
    let mut vec: Vec<u8> = Vec::new();
    assert_eq!(vec.write_varint(u64::MAX), Ok(10));
    assert_eq!(vec, vec![0xFF, 0xFF, 0xFF, 0xFF, 0xFF, 0xFF, 0xFF, 0xFF, 0xFF, 0x01]);
    assert_eq!(vec[9] & 0x80, 0);
    assert_eq!(vec.read_varint(0), Ok((u64::MAX, 10)));
}

#[test]
fn varint_lengths_follow_magnitude() {
    let cases: Vec<(u64, usize)> = vec![
        (0, 1),
        (1, 1),
        (127, 1),
        (128, 2),
        (300, 2),
        (16383, 2),
        (16384, 3),
        (1 << 32, 5),
        ((1 << 63) - 1, 9),
        (1 << 63, 10),
        (u64::MAX, 10),
    ];
    for (value, len) in cases {
        let mut vec: Vec<u8> = Vec::new();
        assert_eq!(vec.write_varint(value), Ok(len));
        assert_eq!(vec.len(), len);
        assert_eq!(vec.read_varint(0), Ok((value, len)));
    }
}

#[test]
fn varint_bytes_of_300() {
    let mut vec: Vec<u8> = Vec::new();
    vec.write_varint(300).unwrap();
    assert_eq!(vec, vec![0xAC, 0x02]);
}

#[test]
fn varint_is_read_where_it_stands() {
    let mut vec: Vec<u8> = vec![0xAA, 0xBB];
    let first = vec.write_varint(300).unwrap();
    let second = vec.write_varint(5).unwrap();
    vec.push(0xEE);
    assert_eq!(vec, vec![0xAA, 0xBB, 0xAC, 0x02, 0x05, 0xEE]);
    assert_eq!(vec.read_varint(2), Ok((300, first)));
    assert_eq!(vec.read_varint(2 + first), Ok((5, second)));
}

#[test]
fn varint_truncated_in_the_middle() {
    let one: Vec<u8> = vec![0x80];
    assert_eq!(one.read_varint(0), Err(ReadError::TruncatedVarint));
    let three: Vec<u8> = vec![0x01, 0xFF, 0xFF, 0xFF];
    assert_eq!(three.read_varint(1), Err(ReadError::TruncatedVarint));
    let nine: Vec<u8> = vec![0xFF; 9];
    assert_eq!(nine.read_varint(0), Err(ReadError::TruncatedVarint));
}

#[test]
fn varint_with_ten_continuation_bytes_is_too_big() {
    let ten: Vec<u8> = vec![0xFF; 10];
    assert_eq!(ten.read_varint(0), Err(ReadError::VarIntTooBig(70)));
    let more: Vec<u8> = vec![0x80, 0x80, 0x80, 0x80, 0x80, 0x80, 0x80, 0x80, 0x80, 0x80, 0x01];
    assert_eq!(more.read_varint(0), Err(ReadError::VarIntTooBig(70)));
}

#[test]
fn varint_past_the_end_is_out_of_bounds() {
    let empty: Vec<u8> = Vec::new();
    assert_eq!(empty.read_varint(0), Err(ReadError::OutOfBounds(0)));
    let two: Vec<u8> = vec![0x01, 0x02];
    assert_eq!(two.read_varint(2), Err(ReadError::OutOfBounds(2)));
    assert_eq!(two.read_varint(usize::MAX), Err(ReadError::OutOfBounds(2)));
}

#[test]
fn varint_tenth_byte_holds_one_bit() {
    let mut bytes: Vec<u8> = vec![0xFF; 9];
    bytes.push(0x01);
    assert_eq!(bytes.read_varint(0), Ok((u64::MAX, 10)));
    let mut top: Vec<u8> = vec![0x80; 9];
    top.push(0x01);
    assert_eq!(top.read_varint(0), Ok((1 << 63, 10)));
    let mut none: Vec<u8> = vec![0x80; 9];
    none.push(0x00);
    assert_eq!(none.read_varint(0), Ok((0, 10)));
}

#[test]
fn varint_with_more_than_64_bits_is_too_big() {
    let mut bytes: Vec<u8> = vec![0x80; 9];
    bytes.push(0x02);
    assert_eq!(bytes.read_varint(0), Err(ReadError::VarIntTooBig(70)));
    let mut bytes: Vec<u8> = vec![0xFF; 9];
    bytes.push(0x7F);
    assert_eq!(bytes.read_varint(0), Err(ReadError::VarIntTooBig(70)));
    let mut bytes: Vec<u8> = vec![0xFF; 9];
    bytes.push(0x03);
    bytes.push(0x00);
    assert_eq!(bytes.read_varint(0), Err(ReadError::VarIntTooBig(70)));
    assert_eq!(bytes.read_zigzag64(0), Err(ReadError::VarIntTooBig(70)));
    assert_eq!(bytes.read_string(0), Err(ReadError::VarIntTooBig(70)));
    let mut bytes: Vec<u8> = vec![0x55, 0xFF, 0xFF, 0xFF, 0xFF, 0xFF, 0xFF, 0xFF, 0xFF, 0xFF];
    bytes.push(0x82);
    assert_eq!(bytes.read_varint(1), Err(ReadError::VarIntTooBig(70)));
}

#[test]
fn varint_padded_with_empty_groups() {
    let bytes: Vec<u8> = vec![0x80, 0x00];
    assert_eq!(bytes.read_varint(0), Ok((0, 2)));
    let bytes: Vec<u8> = vec![0x85, 0x80, 0x00];
    assert_eq!(bytes.read_varint(0), Ok((5, 3)));
}

#[test]
fn zigzag_folds_small_magnitudes_to_small_numbers() {
    let cases: Vec<(i32, Vec<u8>)> = vec![
        (0, vec![0x00]),
        (-1, vec![0x01]),
        (1, vec![0x02]),
        (-2, vec![0x03]),
        (2, vec![0x04]),
        (-64, vec![0x7F]),
        (64, vec![0x80, 0x01]),
        (i32::MAX, vec![0xFE, 0xFF, 0xFF, 0xFF, 0x0F]),
        (i32::MIN, vec![0xFF, 0xFF, 0xFF, 0xFF, 0x0F]),
    ];
    for (value, bytes) in cases {
        let mut vec: Vec<u8> = Vec::new();
        assert_eq!(vec.write_zigzag32(value), Ok(bytes.len()));
        assert_eq!(vec, bytes);
        let mut wide: Vec<u8> = Vec::new();
        assert_eq!(wide.write_zigzag64(value as i64), Ok(bytes.len()));
        assert_eq!(wide, bytes);
    }
}

#[test]
fn zigzag32_round_trips_at_the_boundaries() {
    for value in [i32::MIN, i32::MIN + 1, -1, 0, 1, i32::MAX - 1, i32::MAX] {
        let mut vec: Vec<u8> = vec![0x55];
        let written = vec.write_zigzag32(value).unwrap();
        assert_eq!(vec.read_zigzag32(1), Ok((value, written)));
        assert_eq!(vec.as_slice().read_zigzag32(1), Ok((value, written)));
    }
}

#[test]
fn zigzag64_round_trips_at_the_boundaries() {
    for value in [i64::MIN, i64::MIN + 1, -1, 0, 1, i64::MAX - 1, i64::MAX] {
        let mut vec: Vec<u8> = vec![0x55];
        let written = vec.write_zigzag64(value).unwrap();
        assert_eq!(vec.read_zigzag64(1), Ok((value, written)));
        assert_eq!(vec.as_slice().read_zigzag64(1), Ok((value, written)));
    }
}

#[test]
fn zigzag64_extremes_take_ten_bytes() {
    let mut vec: Vec<u8> = Vec::new();
    assert_eq!(vec.write_zigzag64(i64::MIN), Ok(10));
    assert_eq!(vec, vec![0xFF, 0xFF, 0xFF, 0xFF, 0xFF, 0xFF, 0xFF, 0xFF, 0xFF, 0x01]);
    let mut vec: Vec<u8> = Vec::new();
    assert_eq!(vec.write_zigzag64(i64::MAX), Ok(10));
    assert_eq!(vec, vec![0xFE, 0xFF, 0xFF, 0xFF, 0xFF, 0xFF, 0xFF, 0xFF, 0xFF, 0x01]);
}

#[test]
fn zigzag32_keeps_the_low_bits_of_a_wide_varint() {
    let mut vec: Vec<u8> = Vec::new();
    let written = vec.write_zigzag64(i64::MIN).unwrap();
    assert_eq!(vec.read_zigzag32(0), Ok((0, written)));
    let mut vec: Vec<u8> = Vec::new();
    let written = vec.write_zigzag64(0x1_0000_0005).unwrap();
    assert_eq!(vec.read_zigzag32(0), Ok((5, written)));
    let mut vec: Vec<u8> = Vec::new();
    let written = vec.write_zigzag64(-0x1_0000_0005).unwrap();
    assert_eq!(vec.read_zigzag32(0), Ok((-5, written)));
}

#[test]
fn zigzag_passes_varint_errors_on() {
    let empty: Vec<u8> = Vec::new();
    assert_eq!(empty.read_zigzag32(0), Err(ReadError::OutOfBounds(0)));
    assert_eq!(empty.read_zigzag64(0), Err(ReadError::OutOfBounds(0)));
    let cut: Vec<u8> = vec![0xFF, 0xFF];
    assert_eq!(cut.read_zigzag32(0), Err(ReadError::TruncatedVarint));
    assert_eq!(cut.read_zigzag64(0), Err(ReadError::TruncatedVarint));
    let long: Vec<u8> = vec![0xFF; 12];
    assert_eq!(long.read_zigzag32(0), Err(ReadError::VarIntTooBig(70)));
    assert_eq!(long.read_zigzag64(0), Err(ReadError::VarIntTooBig(70)));
}

#[test]
fn bool_bytes() {
    let mut vec: Vec<u8> = Vec::new();
    assert_eq!(vec.write_bool(true), Ok(1));
    assert_eq!(vec.write_bool(false), Ok(1));
    assert_eq!(vec, vec![0x01, 0x00]);
    assert_eq!(vec.read_bool(0), Ok((true, 1)));
    assert_eq!(vec.read_bool(1), Ok((false, 1)));
    assert_eq!(vec.as_slice().read_bool(0), Ok((true, 1)));
}

#[test]
fn bool_byte_two_is_refused() {
    let bytes: Vec<u8> = vec![0x02];
    assert_eq!(bytes.read_bool(0), Err(ReadError::FailedIntoBoolean(2)));
    let bytes: Vec<u8> = vec![0x00, 0xFF];
    assert_eq!(bytes.read_bool(1), Err(ReadError::FailedIntoBoolean(0xFF)));
}

#[test]
fn bool_past_the_end_is_out_of_bounds() {
    let bytes: Vec<u8> = vec![0x01];
    assert_eq!(bytes.read_bool(1), Err(ReadError::OutOfBounds(1)));
}
