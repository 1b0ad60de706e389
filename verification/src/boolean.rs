//! Booleans: one byte, `0` or `1`.

use vstd::prelude::*;
use crate::error::{ReadError, WriteError};

verus! {

/// The byte that stands for `value` on the wire.
pub open spec fn bool_byte(value: bool) -> u8 {
    if value { 1 } else { 0 }
}

/// What reading a boolean at `offset` of `bytes` yields.
pub open spec fn bool_decoding(bytes: Seq<u8>, offset: int) -> Result<(bool, usize), ReadError> {
    if offset >= bytes.len() {
        Err(ReadError::OutOfBounds(bytes.len() as usize))
    } else if bytes[offset] == 0 {
        Ok((false, 1))
    } else if bytes[offset] == 1 {
        Ok((true, 1))
    } else {
        Err(ReadError::FailedIntoBoolean(bytes[offset]))
    }
}

/// Reads the boolean stored at `offset`.
pub fn decode_bool(buf: &[u8], offset: usize) -> (r: Result<(bool, usize), ReadError>)
    ensures
        r == bool_decoding(buf@, offset as int),
{
    if offset >= buf.len() {
        return Err(ReadError::OutOfBounds(buf.len()));
    }
    let byte = buf[offset];
    if byte == 0 {
        Ok((false, 1))
    } else if byte == 1 {
        Ok((true, 1))
    } else {
        Err(ReadError::FailedIntoBoolean(byte))
    }
}

/// Appends the byte for `value`; returns the number of bytes written.
/// It never fails.
pub fn encode_bool(buf: &mut Vec<u8>, value: bool) -> (r: Result<usize, WriteError>)
    ensures
        final(buf)@ == old(buf)@.push(bool_byte(value)),
        r == Ok::<usize, WriteError>(1),
{
    buf.push(if value { 1 } else { 0 });
    Ok(1)
}

/// Reading a boolean where one was written gives it back, and one byte is
/// read as one was written, whatever stands before and after it.
pub proof fn lemma_bool_round_trip(value: bool, before: Seq<u8>, after: Seq<u8>)
    ensures
        bool_decoding(before.push(bool_byte(value)) + after, before.len() as int) == Ok::<
            (bool, usize),
            ReadError,
        >((value, 1)),
{
}

/// Every byte but 0 and 1 is refused, and named in the error.
pub proof fn lemma_bool_refused(bytes: Seq<u8>, offset: int)
    requires
        0 <= offset < bytes.len(),
        bytes[offset] >= 2,
    ensures
        bool_decoding(bytes, offset) == Err::<(bool, usize), ReadError>(
            ReadError::FailedIntoBoolean(bytes[offset]),
        ),
{
}

} // verus!
