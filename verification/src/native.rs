//! Typed access to fixed-width integers: methods on byte buffers, big endian
//! under the plain names and little endian under the names with an `l`.

use vstd::prelude::*;
use crate::error::{ReadError, WriteError};
use crate::fixed::{
    be_bytes, be_value, le_bytes, le_value, lemma_be_value_bound, lemma_cast_16, lemma_cast_32,
    lemma_cast_64, lemma_cast_8, lemma_le_value_bound, lemma_radix_values, read_be, read_le,
    signed, unsigned, write_be, write_le,
};

verus! {

/// Reading fixed-width integers at an offset of a byte buffer.
///
/// A read that would run past the end of the buffer is refused with
/// `OutOfBounds` and the buffer's length.
pub trait NativeReader: View<V = Seq<u8>> {
    /// The byte at `offset`.
    fn read_u8(&self, offset: usize) -> (r: Result<u8, ReadError>)
        ensures
            r is Ok <==> offset < self@.len(),
            r matches Ok(v) ==> v == self@[offset as int],
            r matches Err(e) ==> e == ReadError::OutOfBounds(self@.len() as usize),
    ;

    /// The byte at `offset`, in two's complement.
    fn read_i8(&self, offset: usize) -> (r: Result<i8, ReadError>)
        ensures
            r is Ok <==> offset < self@.len(),
            r matches Ok(v) ==> v == signed(self@[offset as int] as nat, 1),
            r matches Err(e) ==> e == ReadError::OutOfBounds(self@.len() as usize),
    ;

    /// The big-endian `u16` at `offset`.
    fn read_u16(&self, offset: usize) -> (r: Result<u16, ReadError>)
        ensures
            r is Ok <==> offset + 2 <= self@.len(),
            r matches Ok(v) ==> v == be_value(self@.subrange(offset as int, offset + 2)),
            r matches Err(e) ==> e == ReadError::OutOfBounds(self@.len() as usize),
    ;

    /// The little-endian `u16` at `offset`.
    fn read_lu16(&self, offset: usize) -> (r: Result<u16, ReadError>)
        ensures
            r is Ok <==> offset + 2 <= self@.len(),
            r matches Ok(v) ==> v == le_value(self@.subrange(offset as int, offset + 2)),
            r matches Err(e) ==> e == ReadError::OutOfBounds(self@.len() as usize),
    ;

    /// The big-endian `u32` at `offset`.
    fn read_u32(&self, offset: usize) -> (r: Result<u32, ReadError>)
        ensures
            r is Ok <==> offset + 4 <= self@.len(),
            r matches Ok(v) ==> v == be_value(self@.subrange(offset as int, offset + 4)),
            r matches Err(e) ==> e == ReadError::OutOfBounds(self@.len() as usize),
    ;

    /// The little-endian `u32` at `offset`.
    fn read_lu32(&self, offset: usize) -> (r: Result<u32, ReadError>)
        ensures
            r is Ok <==> offset + 4 <= self@.len(),
            r matches Ok(v) ==> v == le_value(self@.subrange(offset as int, offset + 4)),
            r matches Err(e) ==> e == ReadError::OutOfBounds(self@.len() as usize),
    ;

    /// The big-endian `u64` at `offset`.
    fn read_u64(&self, offset: usize) -> (r: Result<u64, ReadError>)
        ensures
            r is Ok <==> offset + 8 <= self@.len(),
            r matches Ok(v) ==> v == be_value(self@.subrange(offset as int, offset + 8)),
            r matches Err(e) ==> e == ReadError::OutOfBounds(self@.len() as usize),
    ;

    /// The little-endian `u64` at `offset`.
    fn read_lu64(&self, offset: usize) -> (r: Result<u64, ReadError>)
        ensures
            r is Ok <==> offset + 8 <= self@.len(),
            r matches Ok(v) ==> v == le_value(self@.subrange(offset as int, offset + 8)),
            r matches Err(e) ==> e == ReadError::OutOfBounds(self@.len() as usize),
    ;

    /// The big-endian `i16` at `offset`.
    fn read_i16(&self, offset: usize) -> (r: Result<i16, ReadError>)
        ensures
            r is Ok <==> offset + 2 <= self@.len(),
            r matches Ok(v) ==> v == signed(
                be_value(self@.subrange(offset as int, offset + 2)),
                2,
            ),
            r matches Err(e) ==> e == ReadError::OutOfBounds(self@.len() as usize),
    ;

    /// The little-endian `i16` at `offset`.
    fn read_li16(&self, offset: usize) -> (r: Result<i16, ReadError>)
        ensures
            r is Ok <==> offset + 2 <= self@.len(),
            r matches Ok(v) ==> v == signed(
                le_value(self@.subrange(offset as int, offset + 2)),
                2,
            ),
            r matches Err(e) ==> e == ReadError::OutOfBounds(self@.len() as usize),
    ;

    /// The big-endian `i32` at `offset`.
    fn read_i32(&self, offset: usize) -> (r: Result<i32, ReadError>)
        ensures
            r is Ok <==> offset + 4 <= self@.len(),
            r matches Ok(v) ==> v == signed(
                be_value(self@.subrange(offset as int, offset + 4)),
                4,
            ),
            r matches Err(e) ==> e == ReadError::OutOfBounds(self@.len() as usize),
    ;

    /// The little-endian `i32` at `offset`.
    fn read_li32(&self, offset: usize) -> (r: Result<i32, ReadError>)
        ensures
            r is Ok <==> offset + 4 <= self@.len(),
            r matches Ok(v) ==> v == signed(
                le_value(self@.subrange(offset as int, offset + 4)),
                4,
            ),
            r matches Err(e) ==> e == ReadError::OutOfBounds(self@.len() as usize),
    ;

    /// The big-endian `i64` at `offset`.
    fn read_i64(&self, offset: usize) -> (r: Result<i64, ReadError>)
        ensures
            r is Ok <==> offset + 8 <= self@.len(),
            r matches Ok(v) ==> v == signed(
                be_value(self@.subrange(offset as int, offset + 8)),
                8,
            ),
            r matches Err(e) ==> e == ReadError::OutOfBounds(self@.len() as usize),
    ;

    /// The little-endian `i64` at `offset`.
    fn read_li64(&self, offset: usize) -> (r: Result<i64, ReadError>)
        ensures
            r is Ok <==> offset + 8 <= self@.len(),
            r matches Ok(v) ==> v == signed(
                le_value(self@.subrange(offset as int, offset + 8)),
                8,
            ),
            r matches Err(e) ==> e == ReadError::OutOfBounds(self@.len() as usize),
    ;
}

impl<'a> NativeReader for &'a [u8] {
    fn read_u8(&self, offset: usize) -> (r: Result<u8, ReadError>) {
        if offset < self.len() {
            Ok(self[offset])
        } else {
            Err(ReadError::OutOfBounds(self.len()))
        }
    }

    fn read_i8(&self, offset: usize) -> (r: Result<i8, ReadError>) {
        if offset < self.len() {
            let byte = self[offset];
            proof {
                lemma_cast_8(byte, 0);
            }
            Ok(byte as i8)
        } else {
            Err(ReadError::OutOfBounds(self.len()))
        }
    }

    fn read_u16(&self, offset: usize) -> (r: Result<u16, ReadError>) {
        match read_be(*self, offset, 2) {
            Ok(v) => {
                proof {
                    lemma_be_value_bound(self@.subrange(offset as int, offset + 2));
                    lemma_radix_values();
                }
                Ok(v as u16)
            },
            Err(e) => Err(e),
        }
    }

    fn read_lu16(&self, offset: usize) -> (r: Result<u16, ReadError>) {
        match read_le(*self, offset, 2) {
            Ok(v) => {
                proof {
                    lemma_le_value_bound(self@.subrange(offset as int, offset + 2));
                    lemma_radix_values();
                }
                Ok(v as u16)
            },
            Err(e) => Err(e),
        }
    }

    fn read_u32(&self, offset: usize) -> (r: Result<u32, ReadError>) {
        match read_be(*self, offset, 4) {
            Ok(v) => {
                proof {
                    lemma_be_value_bound(self@.subrange(offset as int, offset + 4));
                    lemma_radix_values();
                }
                Ok(v as u32)
            },
            Err(e) => Err(e),
        }
    }

    fn read_lu32(&self, offset: usize) -> (r: Result<u32, ReadError>) {
        match read_le(*self, offset, 4) {
            Ok(v) => {
                proof {
                    lemma_le_value_bound(self@.subrange(offset as int, offset + 4));
                    lemma_radix_values();
                }
                Ok(v as u32)
            },
            Err(e) => Err(e),
        }
    }

    fn read_u64(&self, offset: usize) -> (r: Result<u64, ReadError>) {
        match read_be(*self, offset, 8) {
            Ok(v) => {
                proof {
                    lemma_be_value_bound(self@.subrange(offset as int, offset + 8));
                    lemma_radix_values();
                }
                Ok(v)
            },
            Err(e) => Err(e),
        }
    }

    fn read_lu64(&self, offset: usize) -> (r: Result<u64, ReadError>) {
        match read_le(*self, offset, 8) {
            Ok(v) => {
                proof {
                    lemma_le_value_bound(self@.subrange(offset as int, offset + 8));
                    lemma_radix_values();
                }
                Ok(v)
            },
            Err(e) => Err(e),
        }
    }

    fn read_i16(&self, offset: usize) -> (r: Result<i16, ReadError>) {
        match read_be(*self, offset, 2) {
            Ok(v) => {
                proof {
                    lemma_be_value_bound(self@.subrange(offset as int, offset + 2));
                    lemma_radix_values();
                    lemma_cast_16(v as u16, 0);
                }
                Ok(v as u16 as i16)
            },
            Err(e) => Err(e),
        }
    }

    fn read_li16(&self, offset: usize) -> (r: Result<i16, ReadError>) {
        match read_le(*self, offset, 2) {
            Ok(v) => {
                proof {
                    lemma_le_value_bound(self@.subrange(offset as int, offset + 2));
                    lemma_radix_values();
                    lemma_cast_16(v as u16, 0);
                }
                Ok(v as u16 as i16)
            },
            Err(e) => Err(e),
        }
    }

    fn read_i32(&self, offset: usize) -> (r: Result<i32, ReadError>) {
        match read_be(*self, offset, 4) {
            Ok(v) => {
                proof {
                    lemma_be_value_bound(self@.subrange(offset as int, offset + 4));
                    lemma_radix_values();
                    lemma_cast_32(v as u32, 0);
                }
                Ok(v as u32 as i32)
            },
            Err(e) => Err(e),
        }
    }

    fn read_li32(&self, offset: usize) -> (r: Result<i32, ReadError>) {
        match read_le(*self, offset, 4) {
            Ok(v) => {
                proof {
                    lemma_le_value_bound(self@.subrange(offset as int, offset + 4));
                    lemma_radix_values();
                    lemma_cast_32(v as u32, 0);
                }
                Ok(v as u32 as i32)
            },
            Err(e) => Err(e),
        }
    }

    fn read_i64(&self, offset: usize) -> (r: Result<i64, ReadError>) {
        match read_be(*self, offset, 8) {
            Ok(v) => {
                proof {
                    lemma_be_value_bound(self@.subrange(offset as int, offset + 8));
                    lemma_radix_values();
                    lemma_cast_64(v, 0);
                }
                Ok(v as i64)
            },
            Err(e) => Err(e),
        }
    }

    fn read_li64(&self, offset: usize) -> (r: Result<i64, ReadError>) {
        match read_le(*self, offset, 8) {
            Ok(v) => {
                proof {
                    lemma_le_value_bound(self@.subrange(offset as int, offset + 8));
                    lemma_radix_values();
                    lemma_cast_64(v, 0);
                }
                Ok(v as i64)
            },
            Err(e) => Err(e),
        }
    }
}

impl NativeReader for Vec<u8> {
    fn read_u8(&self, offset: usize) -> (r: Result<u8, ReadError>) {
        self.as_slice().read_u8(offset)
    }

    fn read_i8(&self, offset: usize) -> (r: Result<i8, ReadError>) {
        self.as_slice().read_i8(offset)
    }

    fn read_u16(&self, offset: usize) -> (r: Result<u16, ReadError>) {
        self.as_slice().read_u16(offset)
    }

    fn read_lu16(&self, offset: usize) -> (r: Result<u16, ReadError>) {
        self.as_slice().read_lu16(offset)
    }

    fn read_u32(&self, offset: usize) -> (r: Result<u32, ReadError>) {
        self.as_slice().read_u32(offset)
    }

    fn read_lu32(&self, offset: usize) -> (r: Result<u32, ReadError>) {
        self.as_slice().read_lu32(offset)
    }

    fn read_u64(&self, offset: usize) -> (r: Result<u64, ReadError>) {
        self.as_slice().read_u64(offset)
    }

    fn read_lu64(&self, offset: usize) -> (r: Result<u64, ReadError>) {
        self.as_slice().read_lu64(offset)
    }

    fn read_i16(&self, offset: usize) -> (r: Result<i16, ReadError>) {
        self.as_slice().read_i16(offset)
    }

    fn read_li16(&self, offset: usize) -> (r: Result<i16, ReadError>) {
        self.as_slice().read_li16(offset)
    }

    fn read_i32(&self, offset: usize) -> (r: Result<i32, ReadError>) {
        self.as_slice().read_i32(offset)
    }

    fn read_li32(&self, offset: usize) -> (r: Result<i32, ReadError>) {
        self.as_slice().read_li32(offset)
    }

    fn read_i64(&self, offset: usize) -> (r: Result<i64, ReadError>) {
        self.as_slice().read_i64(offset)
    }

    fn read_li64(&self, offset: usize) -> (r: Result<i64, ReadError>) {
        self.as_slice().read_li64(offset)
    }
}

/// Appending fixed-width integers to a byte buffer.
///
/// What the buffer held before stays in place. No write of a fixed-width
/// integer ever fails.
pub trait NativeWriter: View<V = Seq<u8>> {
    /// Appends `value`.
    fn write_u8(&mut self, value: u8) -> (r: Result<(), WriteError>)
        ensures
            final(self)@ == old(self)@.push(value),
            r == Ok::<(), WriteError>(()),
    ;

    /// Appends `value` in two's complement.
    fn write_i8(&mut self, value: i8) -> (r: Result<(), WriteError>)
        ensures
            final(self)@ == old(self)@.push(unsigned(value as int, 1) as u8),
            r == Ok::<(), WriteError>(()),
    ;

    /// Appends the two bytes of `value`, most significant first.
    fn write_u16(&mut self, value: u16) -> (r: Result<(), WriteError>)
        ensures
            final(self)@ == old(self)@ + be_bytes(value as nat, 2),
            r == Ok::<(), WriteError>(()),
    ;

    /// Appends the two bytes of `value`, least significant first.
    fn write_lu16(&mut self, value: u16) -> (r: Result<(), WriteError>)
        ensures
            final(self)@ == old(self)@ + le_bytes(value as nat, 2),
            r == Ok::<(), WriteError>(()),
    ;

    /// Appends the four bytes of `value`, most significant first.
    fn write_u32(&mut self, value: u32) -> (r: Result<(), WriteError>)
        ensures
            final(self)@ == old(self)@ + be_bytes(value as nat, 4),
            r == Ok::<(), WriteError>(()),
    ;

    /// Appends the four bytes of `value`, least significant first.
    fn write_lu32(&mut self, value: u32) -> (r: Result<(), WriteError>)
        ensures
            final(self)@ == old(self)@ + le_bytes(value as nat, 4),
            r == Ok::<(), WriteError>(()),
    ;

    /// Appends the eight bytes of `value`, most significant first.
    fn write_u64(&mut self, value: u64) -> (r: Result<(), WriteError>)
        ensures
            final(self)@ == old(self)@ + be_bytes(value as nat, 8),
            r == Ok::<(), WriteError>(()),
    ;

    /// Appends the eight bytes of `value`, least significant first.
    fn write_lu64(&mut self, value: u64) -> (r: Result<(), WriteError>)
        ensures
            final(self)@ == old(self)@ + le_bytes(value as nat, 8),
            r == Ok::<(), WriteError>(()),
    ;

    /// Appends the two bytes of `value`, most significant first.
    fn write_i16(&mut self, value: i16) -> (r: Result<(), WriteError>)
        ensures
            final(self)@ == old(self)@ + be_bytes(unsigned(value as int, 2), 2),
            r == Ok::<(), WriteError>(()),
    ;

    /// Appends the two bytes of `value`, least significant first.
    fn write_li16(&mut self, value: i16) -> (r: Result<(), WriteError>)
        ensures
            final(self)@ == old(self)@ + le_bytes(unsigned(value as int, 2), 2),
            r == Ok::<(), WriteError>(()),
    ;

    /// Appends the four bytes of `value`, most significant first.
    fn write_i32(&mut self, value: i32) -> (r: Result<(), WriteError>)
        ensures
            final(self)@ == old(self)@ + be_bytes(unsigned(value as int, 4), 4),
            r == Ok::<(), WriteError>(()),
    ;

    /// Appends the four bytes of `value`, least significant first.
    fn write_li32(&mut self, value: i32) -> (r: Result<(), WriteError>)
        ensures
            final(self)@ == old(self)@ + le_bytes(unsigned(value as int, 4), 4),
            r == Ok::<(), WriteError>(()),
    ;

    /// Appends the eight bytes of `value`, most significant first.
    fn write_i64(&mut self, value: i64) -> (r: Result<(), WriteError>)
        ensures
            final(self)@ == old(self)@ + be_bytes(unsigned(value as int, 8), 8),
            r == Ok::<(), WriteError>(()),
    ;

    /// Appends the eight bytes of `value`, least significant first.
    fn write_li64(&mut self, value: i64) -> (r: Result<(), WriteError>)
        ensures
            final(self)@ == old(self)@ + le_bytes(unsigned(value as int, 8), 8),
            r == Ok::<(), WriteError>(()),
    ;
}

impl NativeWriter for Vec<u8> {
    fn write_u8(&mut self, value: u8) -> (r: Result<(), WriteError>) {
        self.push(value);
        Ok(())
    }

    fn write_i8(&mut self, value: i8) -> (r: Result<(), WriteError>) {
        proof {
            lemma_cast_8(0, value);
        }
        self.push(value as u8);
        Ok(())
    }

    fn write_u16(&mut self, value: u16) -> (r: Result<(), WriteError>) {
        write_be(self, value as u64, 2);
        Ok(())
    }

    fn write_lu16(&mut self, value: u16) -> (r: Result<(), WriteError>) {
        write_le(self, value as u64, 2);
        Ok(())
    }

    fn write_u32(&mut self, value: u32) -> (r: Result<(), WriteError>) {
        write_be(self, value as u64, 4);
        Ok(())
    }

    fn write_lu32(&mut self, value: u32) -> (r: Result<(), WriteError>) {
        write_le(self, value as u64, 4);
        Ok(())
    }

    fn write_u64(&mut self, value: u64) -> (r: Result<(), WriteError>) {
        write_be(self, value, 8);
        Ok(())
    }

    fn write_lu64(&mut self, value: u64) -> (r: Result<(), WriteError>) {
        write_le(self, value, 8);
        Ok(())
    }

    fn write_i16(&mut self, value: i16) -> (r: Result<(), WriteError>) {
        proof {
            lemma_cast_16(0, value);
        }
        write_be(self, value as u16 as u64, 2);
        Ok(())
    }

    fn write_li16(&mut self, value: i16) -> (r: Result<(), WriteError>) {
        proof {
            lemma_cast_16(0, value);
        }
        write_le(self, value as u16 as u64, 2);
        Ok(())
    }

    fn write_i32(&mut self, value: i32) -> (r: Result<(), WriteError>) {
        proof {
            lemma_cast_32(0, value);
        }
        write_be(self, value as u32 as u64, 4);
        Ok(())
    }

    fn write_li32(&mut self, value: i32) -> (r: Result<(), WriteError>) {
        proof {
            lemma_cast_32(0, value);
        }
        write_le(self, value as u32 as u64, 4);
        Ok(())
    }

    fn write_i64(&mut self, value: i64) -> (r: Result<(), WriteError>) {
        proof {
            lemma_cast_64(0, value);
        }
        write_be(self, value as u64, 8);
        Ok(())
    }

    fn write_li64(&mut self, value: i64) -> (r: Result<(), WriteError>) {
        proof {
            lemma_cast_64(0, value);
        }
        write_le(self, value as u64, 8);
        Ok(())
    }
}

} // verus!
