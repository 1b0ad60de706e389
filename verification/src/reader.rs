//! Reading the variable-width kinds at an offset of a byte buffer.

use vstd::prelude::*;
use crate::boolean::{bool_decoding, decode_bool};
use crate::text::{
    decode_little_string, decode_short_string, decode_string, little_string_decoding,
    short_string_decoding, string_decoding, text_view,
};
use crate::varint::{decode_varint, varint_decoding};
use crate::zigzag::{decode_zigzag32, decode_zigzag64, zigzag32_decoding, zigzag64_decoding};

pub use crate::error::ReadError;

verus! {

/// Reads of varints, zigzag integers, booleans and length-prefixed strings.
///
/// Each read takes the offset at which the value starts and returns the value
/// with the number of bytes it occupies, by which a caller advances. The
/// buffer is never changed, and nothing outside it is ever read: a value that
/// does not fit is reported as an error.
pub trait ProtodefReader: View<V = Seq<u8>> {
    /// Reads an unsigned varint.
    fn read_varint(&self, offset: usize) -> (r: Result<(u64, usize), ReadError>)
        ensures
            r == varint_decoding(self@, offset as int),
    ;

    /// Reads a string prefixed by its length as a varint.
    fn read_string(&self, offset: usize) -> (r: Result<(String, usize), ReadError>)
        ensures
            text_view(r) == string_decoding(self@, offset as int),
    ;

    /// Reads a string prefixed by its length in four bytes, little endian and unsigned.
    fn read_little_string(&self, offset: usize) -> (r: Result<(String, usize), ReadError>)
        ensures
            text_view(r) == little_string_decoding(self@, offset as int),
    ;

    /// Reads a string prefixed by its length in two bytes, little endian and unsigned.
    fn read_short_string(&self, offset: usize) -> (r: Result<(String, usize), ReadError>)
        ensures
            text_view(r) == short_string_decoding(self@, offset as int),
    ;

    /// Reads a zigzag varint as a 32-bit integer.
    fn read_zigzag32(&self, offset: usize) -> (r: Result<(i32, usize), ReadError>)
        ensures
            r == zigzag32_decoding(self@, offset as int),
    ;

    /// Reads a zigzag varint as a 64-bit integer.
    fn read_zigzag64(&self, offset: usize) -> (r: Result<(i64, usize), ReadError>)
        ensures
            r == zigzag64_decoding(self@, offset as int),
    ;

    /// Reads a boolean.
    fn read_bool(&self, offset: usize) -> (r: Result<(bool, usize), ReadError>)
        ensures
            r == bool_decoding(self@, offset as int),
    ;
}

impl<'a> ProtodefReader for &'a [u8] {
    fn read_varint(&self, offset: usize) -> (r: Result<(u64, usize), ReadError>) {
        decode_varint(*self, offset)
    }

    fn read_string(&self, offset: usize) -> (r: Result<(String, usize), ReadError>) {
        decode_string(*self, offset)
    }

    fn read_little_string(&self, offset: usize) -> (r: Result<(String, usize), ReadError>) {
        decode_little_string(*self, offset)
    }

    fn read_short_string(&self, offset: usize) -> (r: Result<(String, usize), ReadError>) {
        decode_short_string(*self, offset)
    }

    fn read_zigzag32(&self, offset: usize) -> (r: Result<(i32, usize), ReadError>) {
        decode_zigzag32(*self, offset)
    }

    fn read_zigzag64(&self, offset: usize) -> (r: Result<(i64, usize), ReadError>) {
        decode_zigzag64(*self, offset)
    }

    fn read_bool(&self, offset: usize) -> (r: Result<(bool, usize), ReadError>) {
        decode_bool(*self, offset)
    }
}

impl ProtodefReader for Vec<u8> {
    fn read_varint(&self, offset: usize) -> (r: Result<(u64, usize), ReadError>) {
        decode_varint(self.as_slice(), offset)
    }

    fn read_string(&self, offset: usize) -> (r: Result<(String, usize), ReadError>) {
        decode_string(self.as_slice(), offset)
    }

    fn read_little_string(&self, offset: usize) -> (r: Result<(String, usize), ReadError>) {
        decode_little_string(self.as_slice(), offset)
    }

    fn read_short_string(&self, offset: usize) -> (r: Result<(String, usize), ReadError>) {
        decode_short_string(self.as_slice(), offset)
    }

    fn read_zigzag32(&self, offset: usize) -> (r: Result<(i32, usize), ReadError>) {
        decode_zigzag32(self.as_slice(), offset)
    }

    fn read_zigzag64(&self, offset: usize) -> (r: Result<(i64, usize), ReadError>) {
        decode_zigzag64(self.as_slice(), offset)
    }

    fn read_bool(&self, offset: usize) -> (r: Result<(bool, usize), ReadError>) {
        decode_bool(self.as_slice(), offset)
    }
}

} // verus!
