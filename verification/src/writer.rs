//! Appending the variable-width kinds to a byte buffer.

use vstd::prelude::*;
use vstd::utf8::encode_utf8;
use crate::boolean::{bool_byte, encode_bool};
use crate::text::{
    encode_little_string, encode_short_string, encode_string, little_string_bytes, prefixed_size,
    short_string_bytes, string_bytes, LITTLE_STRING_MAX, SHORT_STRING_MAX,
};
use crate::varint::{encode_varint, varint_bytes};
use crate::zigzag::{encode_zigzag32, encode_zigzag64, zigzag32_bytes, zigzag64_bytes};

pub use crate::error::WriteError;

verus! {

/// Writes of varints, zigzag integers, booleans and length-prefixed strings.
///
/// Each write appends the wire form of the value, leaves what the buffer
/// held before in place, and returns the number of bytes it appended. The
/// one refusal is of a string too long for a fixed-width length prefix; a
/// refused write leaves the buffer as it was.
pub trait ProtodefWriter: View<V = Seq<u8>> {
    /// Appends an unsigned varint. It never fails.
    fn write_varint(&mut self, value: u64) -> (r: Result<usize, WriteError>)
        ensures
            final(self)@ == old(self)@ + varint_bytes(value),
            r matches Ok(written) && written == varint_bytes(value).len() && 1 <= written <= 10,
    ;

    /// Appends a string prefixed by its length as a varint. It never fails.
    fn write_string(&mut self, value: &str) -> (r: Result<usize, WriteError>)
        ensures
            final(self)@ == old(self)@ + string_bytes(value@),
            r matches Ok(written) && written == string_bytes(value@).len(),
    ;

    /// Appends a string prefixed by its length in four bytes, little endian,
    /// or refuses one of more than `LITTLE_STRING_MAX` bytes.
    fn write_little_string(&mut self, value: &str) -> (r: Result<usize, WriteError>)
        ensures
            r == prefixed_size(encode_utf8(value@).len(), 4, LITTLE_STRING_MAX as nat),
            r matches Ok(written) ==> final(self)@ == old(self)@ + little_string_bytes(value@)
                && written == little_string_bytes(value@).len(),
            r is Err ==> final(self)@ == old(self)@,
    ;

    /// Appends a string prefixed by its length in two bytes, little endian,
    /// or refuses one of more than `SHORT_STRING_MAX` bytes.
    fn write_short_string(&mut self, value: &str) -> (r: Result<usize, WriteError>)
        ensures
            r == prefixed_size(encode_utf8(value@).len(), 2, SHORT_STRING_MAX as nat),
            r matches Ok(written) ==> final(self)@ == old(self)@ + short_string_bytes(value@)
                && written == short_string_bytes(value@).len(),
            r is Err ==> final(self)@ == old(self)@,
    ;

    /// Appends a 32-bit integer as a zigzag varint. It never fails.
    fn write_zigzag32(&mut self, value: i32) -> (r: Result<usize, WriteError>)
        ensures
            final(self)@ == old(self)@ + zigzag32_bytes(value),
            r matches Ok(written) && written == zigzag32_bytes(value).len(),
    ;

    /// Appends a 64-bit integer as a zigzag varint. It never fails.
    fn write_zigzag64(&mut self, value: i64) -> (r: Result<usize, WriteError>)
        ensures
            final(self)@ == old(self)@ + zigzag64_bytes(value),
            r matches Ok(written) && written == zigzag64_bytes(value).len(),
    ;

    /// Appends a boolean. It never fails.
    fn write_bool(&mut self, value: bool) -> (r: Result<usize, WriteError>)
        ensures
            final(self)@ == old(self)@.push(bool_byte(value)),
            r == Ok::<usize, WriteError>(1),
    ;
}

impl ProtodefWriter for Vec<u8> {
    fn write_varint(&mut self, value: u64) -> (r: Result<usize, WriteError>) {
        encode_varint(self, value)
    }

    fn write_string(&mut self, value: &str) -> (r: Result<usize, WriteError>) {
        encode_string(self, value)
    }

    fn write_little_string(&mut self, value: &str) -> (r: Result<usize, WriteError>) {
        encode_little_string(self, value)
    }

    fn write_short_string(&mut self, value: &str) -> (r: Result<usize, WriteError>) {
        encode_short_string(self, value)
    }

    fn write_zigzag32(&mut self, value: i32) -> (r: Result<usize, WriteError>) {
        encode_zigzag32(self, value)
    }

    fn write_zigzag64(&mut self, value: i64) -> (r: Result<usize, WriteError>) {
        encode_zigzag64(self, value)
    }

    fn write_bool(&mut self, value: bool) -> (r: Result<usize, WriteError>) {
        encode_bool(self, value)
    }
}

} // verus!
