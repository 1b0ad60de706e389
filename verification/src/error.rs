//! What a read or a write can report instead of a result.

use vstd::prelude::*;

verus! {

/// Why a read produced no value.
#[derive(Debug, Clone, Copy, PartialEq, Eq, Structural)]
pub enum ReadError {
    /// The read starts at or runs past the end of the buffer; carries the buffer's length.
    OutOfBounds(usize),
    /// The buffer ends after a byte whose continuation flag is set.
    TruncatedVarint,
    /// The varint spells a number that does not fit in 64 bits: ten bytes in
    /// a row carry the continuation flag, or a tenth byte holds more than the
    /// one bit that is left. Carries the bit shift reached.
    VarIntTooBig(u8),
    /// A length prefix declares more bytes than remain; carries the bytes that
    /// remain after the prefix and the declared length.
    MissingCharacters(usize, usize),
    /// The bytes of a string are not well-formed UTF-8.
    InvalidUtf8,
    /// A boolean byte is neither 0 nor 1; carries the byte.
    FailedIntoBoolean(u8),
}

/// Why a write appended nothing.
#[derive(Debug, Clone, Copy, PartialEq, Eq, Structural)]
pub enum WriteError {
    /// The byte length of a string does not fit its length prefix; carries
    /// the length and the greatest length that the prefix can announce.
    StringTooLong(usize, usize),
}

} // verus!
