//! A byte-buffer codec: variable-length integers, zigzag-folded signed integers,
//! booleans, length-prefixed text and fixed-width integers, each read at an
//! offset of a byte sequence or appended to a growable buffer.
//!
//! Every kind has a mathematical model of its wire format: a `*_bytes`
//! function that says which bytes a value is written as, and a `*_decoding`
//! function that says what a read at an offset yields, value or error. The
//! executable functions are proved to return exactly what the model says, and
//! each module proves of its model that reading what was written gives the
//! value back, with as many bytes read as were written. A read never looks
//! outside the buffer and a write never drops a part of a value: what does
//! not fit is refused with an error.
//!
//! [`reader`], [`writer`] and [`native`] offer the operations as methods on
//! byte buffers; [`varint`], [`zigzag`], [`text`], [`boolean`] and [`fixed`]
//! hold the models, the functions and the proofs.

pub mod boolean;
pub mod error;
pub mod fixed;
pub mod native;
pub mod prelude;
pub mod reader;
pub mod text;
pub mod varint;
pub mod writer;
pub mod zigzag;
