//! The traits and the error types, for a single import.

pub use crate::error::{ReadError, WriteError};
pub use crate::native::{NativeReader, NativeWriter};
pub use crate::reader::ProtodefReader;
pub use crate::writer::ProtodefWriter;
