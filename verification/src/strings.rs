//! The codec for UTF-8 strings.
//!
//! A string is encoded as a 4-byte little-endian byte length followed by its
//! UTF-8 bytes. Decoding fails with [`TamponError::InvalidUtf8`] when the
//! payload is not valid UTF-8, and with [`TamponError::BufferTooSmall`] when
//! fewer bytes remain than the prefix or the announced payload needs.

use vstd::bytes::*;
use vstd::prelude::*;
use vstd::slice::slice_subrange;
use vstd::string::StringSliceAdditionalSpecFns;
use vstd::utf8::decode_utf8;
use vstd::utf8::encode_utf8;
use vstd::utf8::encode_utf8_decode_utf8;
use vstd::utf8::encode_utf8_valid_utf8;
use vstd::utf8::valid_utf8;

use crate::errors::TamponError;
use crate::tampon::copy_into;
use crate::tampon::lemma_splice_adjacent;
use crate::tampon::Tampon;

verus! {

/// Relies on `core::str::from_utf8`: it returns `Ok` exactly when the bytes
/// are valid UTF-8, and the string it then returns is the one whose UTF-8
/// encoding is those bytes.
#[verifier::external_body]
fn bytes_to_string(bytes: &[u8]) -> (r: Option<String>)
    ensures
        r is Some <==> valid_utf8(bytes@),
        r matches Some(s) ==> encode_utf8(s@) == bytes@,
{
    match core::str::from_utf8(bytes) {
        Ok(s) => Some(s.to_owned()),
        Err(_) => None,
    }
}

impl Tampon for String {
    open spec fn wire(&self) -> Seq<u8> {
        spec_u32_to_le_bytes(encode_utf8(self@).len() as u32) + encode_utf8(self@)
    }

    open spec fn wf(&self) -> bool {
        encode_utf8(self@).len() <= u32::MAX
    }

    open spec fn spec_decode(bytes: Seq<u8>) -> Option<(Seq<char>, int)> {
        if bytes.len() < 4 {
            None
        } else {
            let len = spec_u32_from_le_bytes(bytes.subrange(0, 4)) as int;
            if bytes.len() < 4 + len {
                None
            } else {
                let payload = bytes.subrange(4, 4 + len);
                if valid_utf8(payload) {
                    Some((decode_utf8(payload), 4 + len))
                } else {
                    None
                }
            }
        }
    }

    open spec fn spec_decode_err(bytes: Seq<u8>) -> TamponError {
        if bytes.len() < 4 {
            TamponError::BufferTooSmall
        } else {
            let len = spec_u32_from_le_bytes(bytes.subrange(0, 4)) as int;
            if bytes.len() < 4 + len {
                TamponError::BufferTooSmall
            } else {
                TamponError::InvalidUtf8
            }
        }
    }

    proof fn lemma_decode_len(bytes: Seq<u8>) {
    }

    proof fn lemma_round_trip(v: Self, tail: Seq<u8>) {
        lemma_auto_spec_u32_to_from_le_bytes();
        broadcast use {encode_utf8_valid_utf8, encode_utf8_decode_utf8};

        let enc = encode_utf8(v@);
        let bytes = v.wire() + tail;
        assert(bytes.subrange(0, 4) =~= spec_u32_to_le_bytes(enc.len() as u32));
        assert(bytes.subrange(4, 4 + enc.len() as int) =~= enc);
    }

    fn bytes_size(&self) -> (n: usize) {
        proof {
            lemma_auto_spec_u32_to_from_le_bytes();
        }
        4 + self.as_str().as_bytes().len()
    }

    fn try_bytes_size(&self) -> (r: Option<usize>) {
        proof {
            lemma_auto_spec_u32_to_from_le_bytes();
        }
        let len = self.as_str().as_bytes().len();
        if len as u64 <= u32::MAX as u64 && len <= usize::MAX - 4 {
            Some(4 + len)
        } else {
            None
        }
    }

    fn serialize(&self, buffer: &mut Vec<u8>, index: usize) -> (n: usize) {
        proof {
            lemma_auto_spec_u32_to_from_le_bytes();
        }
        let total = buffer.len();
        let bs: &[u8] = self.as_str().as_bytes();
        let len: usize = bs.len();
        proof {
            assert(bs@ == encode_utf8(self@));
            assert(self.wire().len() == 4 + encode_utf8(self@).len());
            assert(index + 4 + len <= total);
        }
        let prefix = u32_to_le_bytes(len as u32);
        copy_into(prefix.as_slice(), buffer, index);
        copy_into(bs, buffer, index + 4);
        proof {
            lemma_splice_adjacent(old(buffer)@, index as int, prefix@, bs@);
        }
        4 + len
    }

    fn deserialize(buffer: &Vec<u8>, index: usize) -> (r: Result<(Self, usize), TamponError>) {
        proof {
            lemma_auto_spec_u32_to_from_le_bytes();
        }
        let ghost suffix = buffer@.skip(index as int);
        let remaining = buffer.len() - index;
        if remaining < 4 {
            return Err(TamponError::BufferTooSmall);
        }
        let prefix_slice = slice_subrange(buffer.as_slice(), index, index + 4);
        proof {
            assert(prefix_slice@ =~= suffix.subrange(0, 4));
        }
        let len32 = u32_from_le_bytes(prefix_slice);
        let len = len32 as usize;
        if remaining - 4 < len {
            return Err(TamponError::BufferTooSmall);
        }
        let payload_slice = slice_subrange(buffer.as_slice(), index + 4, index + 4 + len);
        proof {
            assert(payload_slice@ =~= suffix.subrange(4, 4 + len as int));
        }
        match bytes_to_string(payload_slice) {
            Some(s) => {
                proof {
                    broadcast use encode_utf8_decode_utf8;

                }
                Ok((s, 4 + len))
            },
            None => Err(TamponError::InvalidUtf8),
        }
    }
}

} // verus!
