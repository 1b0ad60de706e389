//! Signed integers folded onto unsigned ones, so that values of small magnitude,
//! of either sign, have short varints.

use vstd::prelude::*;
use crate::error::{ReadError, WriteError};
use crate::varint::{
    decode_varint, encode_varint, lemma_varint_round_trip, varint_bytes, varint_decoding,
};

verus! {

/// The unsigned number that stands for `value`: 0, -1, 1, -2, 2, ... become 0, 1, 2, 3, 4, ...
pub open spec fn zigzag(value: int) -> nat {
    if value >= 0 {
        (2 * value) as nat
    } else {
        (-2 * value - 1) as nat
    }
}

/// The signed number that `folded` stands for.
pub open spec fn zigzag_inverse(folded: nat) -> int {
    if folded % 2 == 0 {
        (folded / 2) as int
    } else {
        -(folded / 2) - 1
    }
}

/// The wire form of a 32-bit `value`.
pub open spec fn zigzag32_bytes(value: i32) -> Seq<u8> {
    varint_bytes(zigzag(value as int) as u64)
}

/// The wire form of a 64-bit `value`.
pub open spec fn zigzag64_bytes(value: i64) -> Seq<u8> {
    varint_bytes(zigzag(value as int) as u64)
}

/// What reading a 64-bit zigzag integer at `offset` of `bytes` yields.
pub open spec fn zigzag64_decoding(bytes: Seq<u8>, offset: int) -> Result<(i64, usize), ReadError> {
    match varint_decoding(bytes, offset) {
        Ok((folded, size)) => Ok((zigzag_inverse(folded as nat) as i64, size)),
        Err(e) => Err(e),
    }
}

/// `value` cut down to its low 32 bits, read in two's complement: the number
/// in the range of `i32` that differs from `value` by a multiple of 2^32.
pub open spec fn wrap_32(value: int) -> int {
    (value + 0x8000_0000) % 0x1_0000_0000 - 0x8000_0000
}

/// What reading a 32-bit zigzag integer at `offset` of `bytes` yields.
///
/// The varint may hold any 64-bit number; the unfolded number is cut down to
/// its low 32 bits.
pub open spec fn zigzag32_decoding(bytes: Seq<u8>, offset: int) -> Result<(i32, usize), ReadError> {
    match varint_decoding(bytes, offset) {
        Ok((folded, size)) => Ok((wrap_32(zigzag_inverse(folded as nat)) as i32, size)),
        Err(e) => Err(e),
    }
}

/// Appends `value` as a zigzag varint; returns the number of bytes written.
/// It never fails.
pub fn encode_zigzag32(buf: &mut Vec<u8>, value: i32) -> (r: Result<usize, WriteError>)
    ensures
        final(buf)@ == old(buf)@ + zigzag32_bytes(value),
        r matches Ok(written) && written == zigzag32_bytes(value).len(),
{
    let folded = (value >> 31) ^ (value << 1);
    proof {
        lemma_fold32(value);
    }
    encode_varint(buf, folded as u32 as u64)
}

/// Appends `value` as a zigzag varint; returns the number of bytes written.
/// It never fails.
pub fn encode_zigzag64(buf: &mut Vec<u8>, value: i64) -> (r: Result<usize, WriteError>)
    ensures
        final(buf)@ == old(buf)@ + zigzag64_bytes(value),
        r matches Ok(written) && written == zigzag64_bytes(value).len(),
{
    let folded = (value >> 63) ^ (value << 1);
    proof {
        lemma_fold64(value);
    }
    encode_varint(buf, folded as u64)
}

/// Reads the zigzag varint at `offset` as a 32-bit integer.
pub fn decode_zigzag32(buf: &[u8], offset: usize) -> (r: Result<(i32, usize), ReadError>)
    ensures
        r == zigzag32_decoding(buf@, offset as int),
{
    match decode_varint(buf, offset) {
        Ok((folded, size)) => {
            proof {
                lemma_sign_mask(folded);
            }
            let sign = (-1 * (folded & 1) as i32) as u32 as u64;
            proof {
                lemma_unfold32(folded, sign);
            }
            let value = (folded >> 1) ^ sign;
            Ok((value as i32, size))
        },
        Err(e) => Err(e),
    }
}

/// Reads the zigzag varint at `offset` as a 64-bit integer.
pub fn decode_zigzag64(buf: &[u8], offset: usize) -> (r: Result<(i64, usize), ReadError>)
    ensures
        r == zigzag64_decoding(buf@, offset as int),
{
    match decode_varint(buf, offset) {
        Ok((folded, size)) => {
            proof {
                lemma_sign_mask(folded);
            }
            let sign = (-1 * (folded & 1) as i64) as u64;
            proof {
                lemma_unfold64(folded, sign);
            }
            let value = (folded >> 1) ^ sign;
            Ok((value as i64, size))
        },
        Err(e) => Err(e),
    }
}

/// Unfolding undoes folding.
pub proof fn lemma_zigzag_inverse(value: int)
    ensures
        zigzag_inverse(zigzag(value)) == value,
{
}

/// Folding undoes unfolding.
pub proof fn lemma_zigzag_of_inverse(folded: nat)
    ensures
        zigzag(zigzag_inverse(folded)) == folded,
{
}

/// Reading what was written gives a 32-bit value back, the least and the
/// greatest included, and as many bytes are read as were written.
pub proof fn lemma_zigzag32_round_trip(value: i32, before: Seq<u8>, after: Seq<u8>)
    ensures
        zigzag32_decoding(before + zigzag32_bytes(value) + after, before.len() as int) == Ok::<
            (i32, usize),
            ReadError,
        >((value, zigzag32_bytes(value).len() as usize)),
{
    let folded = zigzag(value as int) as u64;
    lemma_varint_round_trip(folded, before, after);
}

/// Reading what was written gives a 64-bit value back, the least and the
/// greatest included, and as many bytes are read as were written.
pub proof fn lemma_zigzag64_round_trip(value: i64, before: Seq<u8>, after: Seq<u8>)
    ensures
        zigzag64_decoding(before + zigzag64_bytes(value) + after, before.len() as int) == Ok::<
            (i64, usize),
            ReadError,
        >((value, zigzag64_bytes(value).len() as usize)),
{
    let folded = zigzag(value as int) as u64;
    lemma_varint_round_trip(folded, before, after);
}

proof fn lemma_fold32(value: i32)
    by (bit_vector)
    ensures
        value >= 0 ==> (((value >> 31) ^ (value << 1)) as u32) == 2 * value,
        value < 0 ==> (((value >> 31) ^ (value << 1)) as u32) == -2 * value - 1,
{
}

proof fn lemma_fold64(value: i64)
    by (bit_vector)
    ensures
        value >= 0 ==> (((value >> 63) ^ (value << 1)) as u64) == 2 * value,
        value < 0 ==> (((value >> 63) ^ (value << 1)) as u64) == -2 * value - 1,
{
}

proof fn lemma_sign_mask(folded: u64)
    by (bit_vector)
    ensures
        folded & 1 == folded % 2,
        (-1i64) as u64 == 0xffff_ffff_ffff_ffffu64,
        (-1i32) as u32 as u64 == 0xffff_ffffu64,
        0i64 as u64 == 0u64,
        0i32 as u32 as u64 == 0u64,
{
}

proof fn lemma_unfold64(folded: u64, sign: u64)
    by (bit_vector)
    requires
        sign == if folded % 2 == 0 { 0 } else { 0xffff_ffff_ffff_ffffu64 },
    ensures
        (((folded >> 1) ^ sign) as i64) as int == (if folded % 2 == 0 {
            (folded / 2) as int
        } else {
            -((folded / 2) as int) - 1
        }),
{
}

proof fn lemma_unfold32(folded: u64, sign: u64)
    by (bit_vector)
    requires
        sign == if folded % 2 == 0 { 0 } else { 0xffff_ffffu64 },
    ensures
        (((folded >> 1) ^ sign) as i32) as int == ((if folded % 2 == 0 {
            (folded / 2) as int
        } else {
            -((folded / 2) as int) - 1
        }) + 0x8000_0000) % 0x1_0000_0000 - 0x8000_0000,
{
}

} // verus!
