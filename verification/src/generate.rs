//! The sample of bytes that a charset selection stands for.
//!
//! Drawing random bytes from the sample is left to the caller, who owns the
//! random number generator; this module only builds the sample itself.

use vstd::prelude::*;

use crate::buffer_generator_charset;

verus! {

/// The contiguous bytes from `lo` to `hi` inclusive, in increasing order.
pub open spec fn byte_range(lo: u8, hi: u8) -> Seq<u8>
    recommends
        lo <= hi,
{
    Seq::new((hi - lo + 1) as nat, |i: int| (lo + i) as u8)
}

/// The bytes that a charset selection stands for: the selected ranges
/// concatenated in a fixed order (numbers, lower case, upper case, symbols,
/// unreadable), except that selecting every flag yields all 256 byte values in
/// increasing order.
pub open spec fn spec_charset_range(charset: u8) -> Seq<u8> {
    if charset == buffer_generator_charset::ALL {
        byte_range(0, 255)
    } else {
        (if charset & buffer_generator_charset::NUMBER != 0 {
            byte_range(48, 57)
        } else {
            Seq::empty()
        }) + (if charset & buffer_generator_charset::LOWER_CASE != 0 {
            byte_range(97, 122)
        } else {
            Seq::empty()
        }) + (if charset & buffer_generator_charset::UPPER_CASE != 0 {
            byte_range(65, 90)
        } else {
            Seq::empty()
        }) + (if charset & buffer_generator_charset::SYMBOL != 0 {
            byte_range(33, 47) + byte_range(58, 64) + byte_range(91, 96) + byte_range(123, 126)
        } else {
            Seq::empty()
        }) + (if charset & buffer_generator_charset::UNREADABLE != 0 {
            byte_range(0, 32) + byte_range(127, 255)
        } else {
            Seq::empty()
        })
    }
}

/// Append the bytes from `lo` to `hi` inclusive to `out`.
fn push_range(out: &mut Vec<u8>, lo: u8, hi: u8)
    requires
        lo <= hi,
    ensures
        final(out)@ == old(out)@ + byte_range(lo, hi),
{
    let n: usize = (hi - lo) as usize + 1;
    let mut i: usize = 0;
    while i < n
        invariant
            lo <= hi,
            n == hi - lo + 1,
            i <= n,
            out@ == old(out)@ + byte_range(lo, hi).take(i as int),
        decreases n - i,
    {
        out.push(lo + i as u8);
        proof {
            assert(out@ =~= old(out)@ + byte_range(lo, hi).take(i + 1));
        }
        i = i + 1;
    }
    proof {
        assert(out@ =~= old(out)@ + byte_range(lo, hi));
    }
}

/// Build the sample of bytes that a charset selection stands for.
///
/// The result is exactly [`spec_charset_range`]; it is non-empty whenever the
/// selection is valid, that is, whenever at least one flag is set.
pub fn generate_charset_range(charset: u8) -> (range: Vec<u8>)
    ensures
        range@ == spec_charset_range(charset),
        charset & buffer_generator_charset::ALL != 0 ==> range@.len() > 0,
{
    let mut charset_range: Vec<u8> = Vec::new();

    if charset == buffer_generator_charset::ALL {
        push_range(&mut charset_range, 0, 255);
    } else {
        if charset & buffer_generator_charset::NUMBER != 0 {
            push_range(&mut charset_range, 48, 57);
        }
        if charset & buffer_generator_charset::LOWER_CASE != 0 {
            push_range(&mut charset_range, 97, 122);
        }
        if charset & buffer_generator_charset::UPPER_CASE != 0 {
            push_range(&mut charset_range, 65, 90);
        }
        if charset & buffer_generator_charset::SYMBOL != 0 {
            push_range(&mut charset_range, 33, 47);
            push_range(&mut charset_range, 58, 64);
            push_range(&mut charset_range, 91, 96);
            push_range(&mut charset_range, 123, 126);
        }
        if charset & buffer_generator_charset::UNREADABLE != 0 {
            push_range(&mut charset_range, 0, 32);
            push_range(&mut charset_range, 127, 255);
        }
        proof {
            assert(charset_range@ =~= spec_charset_range(charset));
            if charset & 31u8 != 0 {
                assert(charset & 1 != 0 || charset & 2 != 0 || charset & 4 != 0 || charset & 8
                    != 0 || charset & 16 != 0) by (bit_vector)
                    requires
                        charset & 31 != 0,
                ;
            }
        }
    }
    charset_range
}

} // verus!
