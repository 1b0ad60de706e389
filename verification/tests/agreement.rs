use byteorder::{BigEndian, ByteOrder, LittleEndian};
use protodef_io::prelude::{NativeReader, NativeWriter};

/// A fixed sequence of well-mixed 64-bit numbers, with the extremes in front.
fn samples() -> Vec<u64> {
    let mut out: Vec<u64> = vec![
        0,
        1,
        0x7F,
        0x80,
        0xFF,
        0x7FFF,
        0x8000,
        0xFFFF,
        0x7FFF_FFFF,
        0x8000_0000,
        0xFFFF_FFFF,
        0x7FFF_FFFF_FFFF_FFFF,
        0x8000_0000_0000_0000,
        u64::MAX,
    ];
    let mut x: u64 = 0x9E37_79B9_7F4A_7C15;
    for _ in 0..200 {
        x ^= x << 13;
        x ^= x >> 7;
        x ^= x << 17;
        out.push(x);
    }
    out
}

#[test]
fn reads_agree_with_byteorder() {
    let mut bytes: Vec<u8> = Vec::new();
    for v in samples() {
        bytes.extend_from_slice(&v.to_ne_bytes());
    }
    let buf: &[u8] = &bytes;
    for offset in 0..bytes.len() - 8 {
        let rest = &buf[offset..];
        assert_eq!(buf.read_u8(offset), Ok(rest[0]));
        assert_eq!(buf.read_i8(offset), Ok(rest[0] as i8));
        assert_eq!(buf.read_u16(offset), Ok(BigEndian::read_u16(rest)));
        assert_eq!(buf.read_lu16(offset), Ok(LittleEndian::read_u16(rest)));
        assert_eq!(buf.read_i16(offset), Ok(BigEndian::read_i16(rest)));
        assert_eq!(buf.read_li16(offset), Ok(LittleEndian::read_i16(rest)));
        assert_eq!(buf.read_u32(offset), Ok(BigEndian::read_u32(rest)));
        assert_eq!(buf.read_lu32(offset), Ok(LittleEndian::read_u32(rest)));
        assert_eq!(buf.read_i32(offset), Ok(BigEndian::read_i32(rest)));
        assert_eq!(buf.read_li32(offset), Ok(LittleEndian::read_i32(rest)));
        assert_eq!(buf.read_u64(offset), Ok(BigEndian::read_u64(rest)));
        assert_eq!(buf.read_lu64(offset), Ok(LittleEndian::read_u64(rest)));
        assert_eq!(buf.read_i64(offset), Ok(BigEndian::read_i64(rest)));
        assert_eq!(buf.read_li64(offset), Ok(LittleEndian::read_i64(rest)));
    }
}

#[test]
fn writes_agree_with_byteorder() {
    for v in samples() {
        let mut ours: Vec<u8> = vec![0x5A];
        let mut theirs: Vec<u8> = vec![0x5A];
        ours.write_u8(v as u8).unwrap();
        byteorder::WriteBytesExt::write_u8(&mut theirs, v as u8).unwrap();
        ours.write_i8(v as i8).unwrap();
        byteorder::WriteBytesExt::write_i8(&mut theirs, v as i8).unwrap();
        ours.write_u16(v as u16).unwrap();
        byteorder::WriteBytesExt::write_u16::<BigEndian>(&mut theirs, v as u16).unwrap();
        ours.write_lu16(v as u16).unwrap();
        byteorder::WriteBytesExt::write_u16::<LittleEndian>(&mut theirs, v as u16).unwrap();
        ours.write_i16(v as i16).unwrap();
        byteorder::WriteBytesExt::write_i16::<BigEndian>(&mut theirs, v as i16).unwrap();
        ours.write_li16(v as i16).unwrap();
        byteorder::WriteBytesExt::write_i16::<LittleEndian>(&mut theirs, v as i16).unwrap();
        ours.write_u32(v as u32).unwrap();
        byteorder::WriteBytesExt::write_u32::<BigEndian>(&mut theirs, v as u32).unwrap();
        ours.write_lu32(v as u32).unwrap();
        byteorder::WriteBytesExt::write_u32::<LittleEndian>(&mut theirs, v as u32).unwrap();
        ours.write_i32(v as i32).unwrap();
        byteorder::WriteBytesExt::write_i32::<BigEndian>(&mut theirs, v as i32).unwrap();
        ours.write_li32(v as i32).unwrap();
        byteorder::WriteBytesExt::write_i32::<LittleEndian>(&mut theirs, v as i32).unwrap();
        ours.write_u64(v).unwrap();
        byteorder::WriteBytesExt::write_u64::<BigEndian>(&mut theirs, v).unwrap();
        ours.write_lu64(v).unwrap();
        byteorder::WriteBytesExt::write_u64::<LittleEndian>(&mut theirs, v).unwrap();
        ours.write_i64(v as i64).unwrap();
        byteorder::WriteBytesExt::write_i64::<BigEndian>(&mut theirs, v as i64).unwrap();
        ours.write_li64(v as i64).unwrap();
        byteorder::WriteBytesExt::write_i64::<LittleEndian>(&mut theirs, v as i64).unwrap();
        assert_eq!(ours, theirs);
    }
}
