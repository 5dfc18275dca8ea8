//! A compact binary serialization codec with a deterministic little-endian
//! wire format, together with a few small buffer utilities.
//!
//! Values are encoded by concatenating, in declaration order, the encoding of
//! each field: booleans as one byte, integers as fixed-width little-endian
//! bytes, strings and sequences as a 4-byte little-endian length prefix
//! followed by their payload. User composite types join the protocol by
//! implementing the [`Tampon`] trait.

use vstd::prelude::*;

pub mod buffer_generator_charset;
pub mod compare;
pub mod errors;
pub mod generate;
pub mod primitives;
pub mod sequences;
pub mod strings;
pub mod tampon;
pub mod wipe;

pub use buffer_generator_charset::validate_charset;
pub use compare::compare_buffers;
pub use errors::TamponError;
pub use generate::generate_charset_range;
pub use tampon::new_buffer;
pub use tampon::try_serialize;
pub use tampon::Tampon;
pub use wipe::wipe_buffer;

verus! {

/// For compatibility between 32-bit and 64-bit architectures, the count of a
/// sequence and the byte length of a string are stored as a `u32`, which takes
/// 4 bytes on the wire.
pub const SLICE_SIZE_IN_BYTES: usize = 4;

} // verus!
