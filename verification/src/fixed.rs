//! Fixed-width integers: `width` bytes, most significant first (big endian) or
//! least significant first (little endian), signed ones in two's complement.

use vstd::prelude::*;
use crate::error::ReadError;

verus! {

/// 256 to the power `width`: the number of values that `width` bytes can hold.
pub open spec fn radix(width: nat) -> nat
    decreases width,
{
    if width == 0 {
        1
    } else {
        256 * radix((width - 1) as nat)
    }
}

/// The number that `bytes` spell, most significant byte first.
pub open spec fn be_value(bytes: Seq<u8>) -> nat
    decreases bytes.len(),
{
    if bytes.len() == 0 {
        0
    } else {
        256 * be_value(bytes.drop_last()) + bytes.last() as nat
    }
}

/// The number that `bytes` spell, least significant byte first.
pub open spec fn le_value(bytes: Seq<u8>) -> nat
    decreases bytes.len(),
{
    if bytes.len() == 0 {
        0
    } else {
        bytes[0] as nat + 256 * le_value(bytes.drop_first())
    }
}

/// The low `width` base-256 digits of `value`, most significant first.
pub open spec fn be_bytes(value: nat, width: nat) -> Seq<u8>
    decreases width,
{
    if width == 0 {
        Seq::empty()
    } else {
        be_bytes(value / 256, (width - 1) as nat).push((value % 256) as u8)
    }
}

/// The low `width` base-256 digits of `value`, least significant first.
pub open spec fn le_bytes(value: nat, width: nat) -> Seq<u8>
    decreases width,
{
    if width == 0 {
        Seq::empty()
    } else {
        seq![(value % 256) as u8] + le_bytes(value / 256, (width - 1) as nat)
    }
}

/// The two's-complement reading of a `width`-byte number: the upper half of
/// the range stands for the negative numbers.
pub open spec fn signed(value: nat, width: nat) -> int {
    if 2 * value < radix(width) {
        value as int
    } else {
        value - radix(width)
    }
}

/// The `width`-byte number that stands for `value` in two's complement.
pub open spec fn unsigned(value: int, width: nat) -> nat {
    if value >= 0 {
        value as nat
    } else {
        (value + radix(width)) as nat
    }
}

/// The `width` bytes of `bytes` from `offset` on, if there are that many.
pub open spec fn window(bytes: Seq<u8>, offset: int, width: int) -> Result<Seq<u8>, ReadError> {
    if offset + width <= bytes.len() {
        Ok(bytes.subrange(offset, offset + width))
    } else {
        Err(ReadError::OutOfBounds(bytes.len() as usize))
    }
}

/// What reading `width` bytes, eight at most, at `offset` as a big-endian number yields.
pub open spec fn be_decoding(bytes: Seq<u8>, offset: int, width: int) -> Result<u64, ReadError> {
    match window(bytes, offset, width) {
        Ok(w) => Ok(be_value(w) as u64),
        Err(e) => Err(e),
    }
}

/// What reading `width` bytes, eight at most, at `offset` as a little-endian number yields.
pub open spec fn le_decoding(bytes: Seq<u8>, offset: int, width: int) -> Result<u64, ReadError> {
    match window(bytes, offset, width) {
        Ok(w) => Ok(le_value(w) as u64),
        Err(e) => Err(e),
    }
}

/// Reads `width` bytes at `offset` as a big-endian number.
pub(crate) fn read_be(buf: &[u8], offset: usize, width: usize) -> (r: Result<u64, ReadError>)
    requires
        width <= 8,
    ensures
        r == be_decoding(buf@, offset as int, width as int),
{
    let len = buf.len();
    if width > len || offset > len - width {
        return Err(ReadError::OutOfBounds(len));
    }
    let ghost bytes = buf@;
    let mut value: u64 = 0;
    let mut i: usize = 0;
    while i < width
        invariant
            bytes == buf@,
            len == bytes.len(),
            offset + width <= len,
            width <= 8,
            i <= width,
            value == be_value(bytes.subrange(offset as int, offset + i)),
        decreases width - i,
    {
        let byte = buf[offset + i];
        proof {
            let read = bytes.subrange(offset as int, offset + i);
            let next = bytes.subrange(offset as int, offset + i + 1);
            assert(next.drop_last() =~= read);
            lemma_be_value_bound(read);
            lemma_radix_fits((i + 1) as nat);
        }
        value = value * 256 + byte as u64;
        i += 1;
    }
    Ok(value)
}

/// Reads `width` bytes at `offset` as a little-endian number.
pub(crate) fn read_le(buf: &[u8], offset: usize, width: usize) -> (r: Result<u64, ReadError>)
    requires
        width <= 8,
    ensures
        r == le_decoding(buf@, offset as int, width as int),
{
    let len = buf.len();
    if width > len || offset > len - width {
        return Err(ReadError::OutOfBounds(len));
    }
    let ghost bytes = buf@;
    let mut value: u64 = 0;
    let mut i: usize = width;
    while i > 0
        invariant
            bytes == buf@,
            len == bytes.len(),
            offset + width <= len,
            width <= 8,
            i <= width,
            value == le_value(bytes.subrange(offset + i, offset + width)),
        decreases i,
    {
        i -= 1;
        let byte = buf[offset + i];
        proof {
            let read = bytes.subrange(offset + i + 1, offset + width);
            let next = bytes.subrange(offset + i, offset + width);
            assert(next.drop_first() =~= read);
            lemma_le_value_bound(read);
            lemma_radix_fits((width - i) as nat);
        }
        value = value * 256 + byte as u64;
    }
    Ok(value)
}

/// Appends the low `width` bytes of `value`, most significant first.
pub(crate) fn write_be(buf: &mut Vec<u8>, value: u64, width: usize)
    ensures
        final(buf)@ == old(buf)@ + be_bytes(value as nat, width as nat),
    decreases width,
{
    if width > 0 {
        write_be(buf, value / 256, width - 1);
        buf.push((value % 256) as u8);
    }
}

/// Appends the low `width` bytes of `value`, least significant first.
pub(crate) fn write_le(buf: &mut Vec<u8>, value: u64, width: usize)
    ensures
        final(buf)@ == old(buf)@ + le_bytes(value as nat, width as nat),
{
    let mut rest = value;
    let mut i: usize = 0;
    while i < width
        invariant
            i <= width,
            buf@ + le_bytes(rest as nat, (width - i) as nat) == old(buf)@ + le_bytes(
                value as nat,
                width as nat,
            ),
        decreases width - i,
    {
        buf.push((rest % 256) as u8);
        rest = rest / 256;
        i += 1;
    }
}

/// Reading a fixed-width number where one was written gives it back,
/// whatever stands before and after it in the buffer.
pub proof fn lemma_fixed_round_trip(value: nat, width: nat, before: Seq<u8>, after: Seq<u8>)
    requires
        value < radix(width),
    ensures
        be_value(
            (before + be_bytes(value, width) + after).subrange(
                before.len() as int,
                before.len() as int + width,
            ),
        ) == value,
        le_value(
            (before + le_bytes(value, width) + after).subrange(
                before.len() as int,
                before.len() as int + width,
            ),
        ) == value,
        width <= 8 ==> be_decoding(
            before + be_bytes(value, width) + after,
            before.len() as int,
            width as int,
        ) == Ok::<u64, ReadError>(value as u64),
        width <= 8 ==> le_decoding(
            before + le_bytes(value, width) + after,
            before.len() as int,
            width as int,
        ) == Ok::<u64, ReadError>(value as u64),
{
    let offset = before.len() as int;
    lemma_be_bytes_len(value, width);
    lemma_le_bytes_len(value, width);
    lemma_be_round_trip(value, width);
    lemma_le_round_trip(value, width);
    assert((before + be_bytes(value, width) + after).subrange(offset, offset + width)
        =~= be_bytes(value, width));
    assert((before + le_bytes(value, width) + after).subrange(offset, offset + width)
        =~= le_bytes(value, width));
}

/// Reading a signed fixed-width number where one was written gives it back,
/// the least and the greatest of its range included.
pub proof fn lemma_signed_fixed_round_trip(
    value: int,
    width: nat,
    before: Seq<u8>,
    after: Seq<u8>,
)
    requires
        width >= 1,
        -(radix(width) as int) <= 2 * value < radix(width),
    ensures
        signed(
            be_value(
                (before + be_bytes(unsigned(value, width), width) + after).subrange(
                    before.len() as int,
                    before.len() as int + width,
                ),
            ),
            width,
        ) == value,
        signed(
            le_value(
                (before + le_bytes(unsigned(value, width), width) + after).subrange(
                    before.len() as int,
                    before.len() as int + width,
                ),
            ),
            width,
        ) == value,
{
    lemma_fixed_round_trip(unsigned(value, width), width, before, after);
}

/// The bytes written for a number that fits spell that number again, most
/// significant first.
pub proof fn lemma_be_round_trip(value: nat, width: nat)
    requires
        value < radix(width),
    ensures
        be_value(be_bytes(value, width)) == value,
    decreases width,
{
    if width > 0 {
        let shorter = be_bytes(value / 256, (width - 1) as nat);
        lemma_be_round_trip(value / 256, (width - 1) as nat);
        assert(be_bytes(value, width).drop_last() =~= shorter);
    }
}

/// The bytes written for a number that fits spell that number again, least
/// significant first.
pub proof fn lemma_le_round_trip(value: nat, width: nat)
    requires
        value < radix(width),
    ensures
        le_value(le_bytes(value, width)) == value,
    decreases width,
{
    if width > 0 {
        let shorter = le_bytes(value / 256, (width - 1) as nat);
        lemma_le_round_trip(value / 256, (width - 1) as nat);
        assert(le_bytes(value, width).drop_first() =~= shorter);
    }
}

/// Two's complement loses nothing: a number in the signed range of `width`
/// bytes comes back from the unsigned number that stands for it.
pub proof fn lemma_signed_round_trip(value: int, width: nat)
    requires
        width >= 1,
        -(radix(width) as int) <= 2 * value < radix(width),
    ensures
        unsigned(value, width) < radix(width),
        signed(unsigned(value, width), width) == value,
{
}

/// Between `u8` and `i8`, `as` is two's complement.
pub proof fn lemma_cast_8(u: u8, i: i8)
    ensures
        (u as i8) as int == signed(u as nat, 1),
        (i as u8) as nat == unsigned(i as int, 1),
{
    lemma_radix_values();
    lemma_bits_8(u, i);
}

/// Between `u16` and `i16`, `as` is two's complement.
pub proof fn lemma_cast_16(u: u16, i: i16)
    ensures
        (u as i16) as int == signed(u as nat, 2),
        (i as u16) as nat == unsigned(i as int, 2),
{
    lemma_radix_values();
    lemma_bits_16(u, i);
}

/// Between `u32` and `i32`, `as` is two's complement.
pub proof fn lemma_cast_32(u: u32, i: i32)
    ensures
        (u as i32) as int == signed(u as nat, 4),
        (i as u32) as nat == unsigned(i as int, 4),
{
    lemma_radix_values();
    lemma_bits_32(u, i);
}

/// Between `u64` and `i64`, `as` is two's complement.
pub proof fn lemma_cast_64(u: u64, i: i64)
    ensures
        (u as i64) as int == signed(u as nat, 8),
        (i as u64) as nat == unsigned(i as int, 8),
{
    lemma_radix_values();
    lemma_bits_64(u, i);
}

/// The powers of 256 for one, two, four and eight bytes.
pub proof fn lemma_radix_values()
    ensures
        radix(1) == 0x100,
        radix(2) == 0x1_0000,
        radix(4) == 0x1_0000_0000,
        radix(8) == 0x1_0000_0000_0000_0000,
{
    reveal_with_fuel(radix, 9);
}

/// A number spelt with `bytes.len()` bytes is below `radix(bytes.len())`.
pub proof fn lemma_be_value_bound(bytes: Seq<u8>)
    ensures
        be_value(bytes) < radix(bytes.len()),
    decreases bytes.len(),
{
    if bytes.len() > 0 {
        lemma_be_value_bound(bytes.drop_last());
    }
}

/// A number spelt with `bytes.len()` bytes is below `radix(bytes.len())`.
pub proof fn lemma_le_value_bound(bytes: Seq<u8>)
    ensures
        le_value(bytes) < radix(bytes.len()),
    decreases bytes.len(),
{
    if bytes.len() > 0 {
        lemma_le_value_bound(bytes.drop_first());
    }
}

/// `be_bytes` yields `width` bytes.
pub proof fn lemma_be_bytes_len(value: nat, width: nat)
    ensures
        be_bytes(value, width).len() == width,
    decreases width,
{
    if width > 0 {
        lemma_be_bytes_len(value / 256, (width - 1) as nat);
    }
}

/// `le_bytes` yields `width` bytes.
pub proof fn lemma_le_bytes_len(value: nat, width: nat)
    ensures
        le_bytes(value, width).len() == width,
    decreases width,
{
    if width > 0 {
        lemma_le_bytes_len(value / 256, (width - 1) as nat);
    }
}

/// What up to eight bytes can hold fits in 64 bits.
proof fn lemma_radix_fits(width: nat)
    requires
        width <= 8,
    ensures
        1 <= radix(width) <= 0x1_0000_0000_0000_0000,
    decreases width,
{
    lemma_radix_values();
    if width > 0 {
        lemma_radix_fits((width - 1) as nat);
    }
}

proof fn lemma_bits_8(u: u8, i: i8)
    by (bit_vector)
    ensures
        (u as i8) as int == (if u < 0x80 { u as int } else { u as int - 0x100 }),
        (i as u8) as int == (if i >= 0 { i as int } else { i as int + 0x100 }),
{
}

proof fn lemma_bits_16(u: u16, i: i16)
    by (bit_vector)
    ensures
        (u as i16) as int == (if u < 0x8000 { u as int } else { u as int - 0x1_0000 }),
        (i as u16) as int == (if i >= 0 { i as int } else { i as int + 0x1_0000 }),
{
}

proof fn lemma_bits_32(u: u32, i: i32)
    by (bit_vector)
    ensures
        (u as i32) as int == (if u < 0x8000_0000 { u as int } else { u as int - 0x1_0000_0000 }),
        (i as u32) as int == (if i >= 0 { i as int } else { i as int + 0x1_0000_0000 }),
{
}

proof fn lemma_bits_64(u: u64, i: i64)
    by (bit_vector)
    ensures
        (u as i64) as int == (if u < 0x8000_0000_0000_0000 {
            u as int
        } else {
            u as int - 0x1_0000_0000_0000_0000
        }),
        (i as u64) as int == (if i >= 0 { i as int } else { i as int + 0x1_0000_0000_0000_0000 }),
{
}

} // verus!
