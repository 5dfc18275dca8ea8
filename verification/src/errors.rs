//! The error type shared by every decoding operation of the codec.

use vstd::prelude::*;

verus! {

/// Why an encode or decode step could not complete.
///
/// Both conditions are caller errors (an undersized buffer, or bytes that are
/// not a valid encoding); no partial result is ever produced alongside them.
#[derive(Clone, Copy, Debug, PartialEq, Eq, Structural)]
pub enum TamponError {
    /// The step needed more bytes than remain in the buffer.
    BufferTooSmall,
    /// A string payload was not valid UTF-8.
    InvalidUtf8,
}

} // verus!
