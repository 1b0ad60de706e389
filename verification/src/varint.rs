//! Variable-length unsigned integers: seven value bits per byte, least
//! significant group first, the high bit of a byte set when another byte follows.

use vstd::prelude::*;
use crate::error::{ReadError, WriteError};

verus! {

/// The wire form of `value`.
pub open spec fn varint_bytes(value: u64) -> Seq<u8>
    decreases value,
{
    if value < 128 {
        seq![value as u8]
    } else {
        seq![(value % 128 + 128) as u8] + varint_bytes(value / 128)
    }
}

/// The number of bytes in the wire form of `value`.
pub open spec fn varint_len(value: u64) -> nat
    decreases value,
{
    if value < 128 {
        1
    } else {
        1 + varint_len(value / 128)
    }
}

/// 128 to the power `k`: what one unit of the group with index `k` is worth.
pub open spec fn group_weight(k: nat) -> nat
    decreases k,
{
    if k == 0 {
        1
    } else {
        128 * group_weight((k - 1) as nat)
    }
}

/// How many bytes in a row, from `pos` on, have the continuation flag set.
pub open spec fn continuation_run(bytes: Seq<u8>, pos: int) -> nat
    decreases bytes.len() - pos,
{
    if 0 <= pos < bytes.len() && bytes[pos] >= 128 {
        1 + continuation_run(bytes, pos + 1)
    } else {
        0
    }
}

/// The number whose base-128 digits, least significant first, are the low
/// seven bits of each byte of `groups`.
pub open spec fn base128(groups: Seq<u8>) -> nat
    decreases groups.len(),
{
    if groups.len() == 0 {
        0
    } else {
        (groups[0] % 128) as nat + 128 * base128(groups.drop_first())
    }
}

/// What reading a varint at `offset` of `bytes` yields.
///
/// A varint ends at the first byte without the continuation flag. Running
/// out of bytes before the end is a truncation. A varint whose number does
/// not fit in 64 bits is too big: ten flagged bytes in a row, or a tenth byte
/// that holds more than the lowest bit. No bit is ever dropped in silence.
pub open spec fn varint_decoding(bytes: Seq<u8>, offset: int) -> Result<(u64, usize), ReadError> {
    let run = continuation_run(bytes, offset);
    let groups = bytes.subrange(offset, offset + run + 1);
    if offset >= bytes.len() {
        Err(ReadError::OutOfBounds(bytes.len() as usize))
    } else if run >= 10 {
        Err(ReadError::VarIntTooBig(70))
    } else if offset + run >= bytes.len() {
        Err(ReadError::TruncatedVarint)
    } else if base128(groups) > u64::MAX {
        Err(ReadError::VarIntTooBig(70))
    } else {
        Ok((base128(groups) as u64, (run + 1) as usize))
    }
}

/// Reads the varint that starts at `offset`: its value and the number of bytes it occupies.
pub fn decode_varint(buf: &[u8], offset: usize) -> (r: Result<(u64, usize), ReadError>)
    ensures
        r == varint_decoding(buf@, offset as int),
{
    let len = buf.len();
    if offset >= len {
        return Err(ReadError::OutOfBounds(len));
    }
    let mut value: u64 = 0;
    let mut shift: u8 = 0;
    let mut cursor: usize = offset;
    let ghost bytes = buf@;
    assert((1u64 << 0) == 1) by (bit_vector);
    loop
        invariant
            bytes == buf@,
            len == bytes.len(),
            offset <= cursor < len,
            shift == 7 * (cursor - offset),
            shift <= 63,
            forall|i: int| offset <= i < cursor ==> bytes[i] >= 128,
            value == base128(bytes.subrange(offset as int, cursor as int)),
            value < group_weight((cursor - offset) as nat),
            group_weight((cursor - offset) as nat) == (1u64 << (shift as u64)),
        decreases len - cursor,
    {
        let byte = buf[cursor];
        let group = byte & 0x7f;
        let ghost k = (cursor - offset) as nat;
        let ghost groups = bytes.subrange(offset as int, cursor as int);
        proof {
            lemma_base128_push(groups, byte);
            assert(groups.push(byte) =~= bytes.subrange(offset as int, cursor + 1));
            if shift <= 56 {
                lemma_merge_group(value, byte, shift as u64);
                assert((byte % 128) * group_weight(k) <= 127 * group_weight(k))
                    by (nonlinear_arith)
                    requires
                        byte % 128 <= 127,
                ;
            } else {
                lemma_merge_last_group(value, byte);
            }
        }
        if shift == 63 && group > 1 {
            proof {
                if byte >= 128 {
                    lemma_run_extends(bytes, offset as int, cursor + 1);
                } else {
                    lemma_run_extends(bytes, offset as int, cursor as int);
                }
            }
            return Err(ReadError::VarIntTooBig(shift + 7));
        }
        value |= (group as u64) << shift;
        cursor += 1;
        shift += 7;
        if (byte & 0x80) == 0 {
            proof {
                lemma_run_extends(bytes, offset as int, cursor - 1);
            }
            return Ok((value, cursor - offset));
        } else if shift > 63 {
            proof {
                lemma_run_extends(bytes, offset as int, cursor as int);
            }
            return Err(ReadError::VarIntTooBig(shift));
        } else if cursor >= len {
            proof {
                lemma_run_extends(bytes, offset as int, cursor as int);
            }
            return Err(ReadError::TruncatedVarint);
        }
    }
}

/// Appends the wire form of `value`; returns the number of bytes written.
/// It never fails.
pub fn encode_varint(buf: &mut Vec<u8>, value: u64) -> (r: Result<usize, WriteError>)
    ensures
        final(buf)@ == old(buf)@ + varint_bytes(value),
        r matches Ok(written) && written == varint_bytes(value).len() && 1 <= written <= 10,
{
    let mut written: usize = 0;
    let mut rest = value;
    proof {
        lemma_varint_len(value);
    }
    while (rest & !0x7f) != 0
        invariant
            old(buf)@ + varint_bytes(value) == buf@ + varint_bytes(rest),
            written + varint_len(rest) == varint_len(value),
            varint_len(value) <= 10,
        decreases rest,
    {
        proof {
            lemma_split_group(rest);
        }
        buf.push((rest & 0xff | 0x80) as u8);
        written += 1;
        rest >>= 7;
    }
    proof {
        lemma_split_group(rest);
    }
    buf.push(rest as u8);
    written += 1;
    Ok(written)
}

/// The length of the wire form depends on the magnitude of the value alone:
/// `k` bytes are enough exactly for the values below 128 to the power `k`.
pub proof fn lemma_varint_len_by_magnitude(value: u64, k: nat)
    requires
        k >= 1,
    ensures
        varint_len(value) <= k <==> value < group_weight(k),
    decreases value,
{
    lemma_group_weight_grows(1, k);
    if value >= 128 {
        assert(varint_len(value) == 1 + varint_len(value / 128));
        if k >= 2 {
            lemma_varint_len_by_magnitude(value / 128, (k - 1) as nat);
        }
    }
}

/// The wire form of `value` has `varint_len(value)` bytes, between one and ten.
pub proof fn lemma_varint_len(value: u64)
    ensures
        varint_bytes(value).len() == varint_len(value),
        1 <= varint_len(value) <= 10,
    decreases value,
{
    if value >= 128 {
        lemma_varint_len(value / 128);
    }
    assert(group_weight(10) == 0x40_0000_0000_0000_0000) by {
        reveal_with_fuel(group_weight, 11);
    }
    lemma_varint_len_by_magnitude(value, 10);
}

/// In the wire form of `value` every byte but the last has the continuation
/// flag set, and the low seven bits of the bytes spell `value`.
pub proof fn lemma_varint_shape(value: u64)
    ensures
        forall|i: int| 0 <= i < varint_len(value) - 1 ==> #[trigger] varint_bytes(value)[i] >= 128,
        varint_bytes(value)[varint_len(value) - 1] < 128,
        base128(varint_bytes(value)) == value,
    decreases value,
{
    let wire = varint_bytes(value);
    if value < 128 {
        assert(base128(wire.drop_first()) == 0);
    } else {
        let rest = varint_bytes(value / 128);
        lemma_varint_shape(value / 128);
        lemma_varint_len(value / 128);
        assert(wire.drop_first() =~= rest);
    }
}

/// Reading what was written gives the value back, and as many bytes are read
/// as were written: wherever the wire form of `value` stands in a buffer, and
/// whatever follows it.
pub proof fn lemma_varint_round_trip(value: u64, before: Seq<u8>, after: Seq<u8>)
    ensures
        varint_decoding(before + varint_bytes(value) + after, before.len() as int) == Ok::<
            (u64, usize),
            ReadError,
        >((value, varint_bytes(value).len() as usize)),
{
    let wire = varint_bytes(value);
    let bytes = before + wire + after;
    let offset = before.len() as int;
    let last = offset + varint_len(value) - 1;
    lemma_varint_len(value);
    lemma_varint_shape(value);
    lemma_run_extends(bytes, offset, last);
    assert(bytes.subrange(offset, last + 1) =~= wire);
}

/// A varint that was read lies inside the buffer and has between one and ten bytes.
pub proof fn lemma_varint_decoding_in_bounds(bytes: Seq<u8>, offset: int)
    requires
        0 <= offset,
    ensures
        varint_decoding(bytes, offset) matches Ok((_, size)) ==> 1 <= size <= 10 && offset + size
            <= bytes.len(),
{
}

/// What a read yields depends on the bytes it covers alone: another buffer
/// that holds the same bytes at the same place yields the same varint.
pub proof fn lemma_varint_decoding_local(bytes: Seq<u8>, other: Seq<u8>, offset: int)
    requires
        0 <= offset,
        varint_decoding(bytes, offset) matches Ok((_, size)) && offset + size <= other.len()
            && other.subrange(offset, offset + size) == bytes.subrange(offset, offset + size),
    ensures
        varint_decoding(other, offset) == varint_decoding(bytes, offset),
{
    let run = continuation_run(bytes, offset) as int;
    let covered = bytes.subrange(offset, offset + run + 1);
    lemma_run_counts(bytes, offset, run);
    assert forall|i: int| offset <= i <= offset + run implies other[i] == bytes[i] by {
        assert(bytes[i] == covered[i - offset]);
    }
    lemma_run_extends(other, offset, offset + run);
}

/// Nine flagged bytes and then a byte that holds more than its lowest bit
/// spell more than 64 bits: the varint is refused, and no bit is dropped.
pub proof fn lemma_oversized_varint(bytes: Seq<u8>, offset: int)
    requires
        0 <= offset,
        offset + 10 <= bytes.len(),
        forall|i: int| offset <= i < offset + 9 ==> bytes[i] >= 128,
        bytes[offset + 9] % 128 >= 2,
    ensures
        varint_decoding(bytes, offset) == Err::<(u64, usize), ReadError>(
            ReadError::VarIntTooBig(70),
        ),
{
    let tenth = bytes[offset + 9];
    lemma_run_extends(bytes, offset, offset + 9);
    if tenth < 128 {
        let nine = bytes.subrange(offset, offset + 9);
        assert(nine.push(tenth) =~= bytes.subrange(offset, offset + 10));
        lemma_base128_push(nine, tenth);
        assert(group_weight(9) == 0x8000_0000_0000_0000) by {
            reveal_with_fuel(group_weight, 10);
        }
        assert((tenth % 128) * group_weight(9) >= 2 * group_weight(9)) by (nonlinear_arith)
            requires
                tenth % 128 >= 2,
        ;
    }
}

/// A buffer that ends in the middle of a varint, after fewer than ten bytes
/// that all carry the continuation flag, is reported as truncated.
pub proof fn lemma_truncated_varint(bytes: Seq<u8>, offset: int)
    requires
        0 <= offset < bytes.len(),
        bytes.len() - offset < 10,
        forall|i: int| offset <= i < bytes.len() ==> bytes[i] >= 128,
    ensures
        varint_decoding(bytes, offset) == Err::<(u64, usize), ReadError>(
            ReadError::TruncatedVarint,
        ),
{
    lemma_run_extends(bytes, offset, bytes.len() as int);
}

proof fn lemma_group_weight_grows(low: nat, high: nat)
    requires
        low <= high,
    ensures
        1 <= group_weight(low) <= group_weight(high),
    decreases high,
{
    if high > 0 {
        lemma_group_weight_grows(0, (high - 1) as nat);
        if low < high {
            lemma_group_weight_grows(low, (high - 1) as nat);
        }
    }
}

proof fn lemma_split_group(value: u64)
    by (bit_vector)
    ensures
        (value & !0x7f != 0) <==> value >= 128,
        (value & 0xff | 0x80) as u8 == value % 128 + 128,
        value >> 7 == value / 128,
{
}

proof fn lemma_merge_group(acc: u64, byte: u8, shift: u64)
    by (bit_vector)
    requires
        shift <= 56,
        acc < (1u64 << shift),
    ensures
        (byte & 0x7f) as u64 == byte % 128,
        acc | (((byte & 0x7f) as u64) << shift) == acc + (byte % 128) * (1u64 << shift),
        (1u64 << (shift + 7)) == 128 * (1u64 << shift),
        (byte & 0x80 == 0) <==> byte < 128,
{
}

proof fn lemma_merge_last_group(acc: u64, byte: u8)
    by (bit_vector)
    requires
        acc < (1u64 << 63),
    ensures
        (byte & 0x7f) as u64 == byte % 128,
        (byte & 0x7f) <= 1 ==> acc | (((byte & 0x7f) as u64) << 63) == acc + (byte % 128)
            * 0x8000_0000_0000_0000,
        (byte & 0x80 == 0) <==> byte < 128,
        (1u64 << 63) == 0x8000_0000_0000_0000,
{
}

/// Appending one byte to `groups` adds its low seven bits at the next weight.
proof fn lemma_base128_push(groups: Seq<u8>, byte: u8)
    ensures
        base128(groups.push(byte)) == base128(groups) + (byte % 128) * group_weight(groups.len()),
    decreases groups.len(),
{
    let pushed = groups.push(byte);
    if groups.len() == 0 {
        assert(base128(pushed.drop_first()) == 0);
        assert(group_weight(0) == 1);
    } else {
        let rest = groups.drop_first();
        assert(pushed.drop_first() =~= rest.push(byte));
        lemma_base128_push(rest, byte);
        assert((byte % 128) * (128 * group_weight(rest.len())) == 128 * ((byte % 128)
            * group_weight(rest.len()))) by (nonlinear_arith);
    }
}

/// The bytes that a run counts are flagged, and the byte after them, if there is one, is not.
proof fn lemma_run_counts(bytes: Seq<u8>, from: int, run: int)
    requires
        0 <= from <= bytes.len(),
        run == continuation_run(bytes, from),
    ensures
        from + run <= bytes.len(),
        forall|i: int| from <= i < from + run ==> bytes[i] >= 128,
        from + run < bytes.len() ==> bytes[from + run] < 128,
    decreases bytes.len() - from,
{
    if from < bytes.len() && bytes[from] >= 128 {
        lemma_run_counts(bytes, from + 1, run - 1);
    }
}

/// A run of flagged bytes that reaches `to` continues as the run from `to` does.
proof fn lemma_run_extends(bytes: Seq<u8>, from: int, to: int)
    requires
        0 <= from <= to <= bytes.len(),
        forall|i: int| from <= i < to ==> bytes[i] >= 128,
    ensures
        continuation_run(bytes, from) == (to - from) + continuation_run(bytes, to),
    decreases to - from,
{
    if from < to {
        lemma_run_extends(bytes, from + 1, to);
    }
}

} // verus!
