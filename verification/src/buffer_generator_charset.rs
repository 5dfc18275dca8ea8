//! Character-set flags for the buffer generator.
//!
//! Flags are combined with bitwise OR; a selection is valid when at least one
//! flag is set.

use vstd::prelude::*;

verus! {

/// Include numbers 0..9 (10 characters) when generating a buffer.
pub const NUMBER: u8 = 1;

/// Include lower case a..z (26 characters) when generating a buffer.
pub const LOWER_CASE: u8 = 2;

/// Include upper case A..Z (26 characters) when generating a buffer.
pub const UPPER_CASE: u8 = 4;

/// Include symbols (!,#,$,%,...) (32 characters) when generating a buffer.
pub const SYMBOL: u8 = 8;

/// Include unreadable symbols (NULL, TAB, BS, DEL, ...) (162 characters) when
/// generating a buffer.
pub const UNREADABLE: u8 = 16;

/// Include all characters, unreadable ones too (256 characters).
pub const ALL: u8 = 31;

/// Validate a charset selection: true exactly when at least one of the
/// character-set flags is set.
pub fn validate_charset(charset: u8) -> (valid: bool)
    ensures
        valid <==> charset & ALL != 0,
{
    proof {
        assert((charset & 1) <= 1 && (charset & 2) <= 2 && (charset & 4) <= 4 && (charset & 8)
            <= 8 && (charset & 16) <= 16) by (bit_vector);
        assert(((charset & 1) as u16 + (charset & 2) as u16 + (charset & 4) as u16 + (charset
            & 8) as u16 + (charset & 16) as u16 > 0) == (charset & 31 != 0)) by (bit_vector);
    }
    ((charset & NUMBER) + (charset & LOWER_CASE) + (charset & UPPER_CASE) + (charset & SYMBOL)
        + (charset & UNREADABLE)) > 0
}

} // verus!
