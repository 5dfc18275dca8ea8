//! The codec for booleans and fixed-width integers.
//!
//! Every integer is encoded as its fixed byte width in little-endian order;
//! a signed integer is encoded as the little-endian bytes of its two's
//! complement bit pattern. A boolean is one byte: the encoder emits 1 for
//! true and 0 for false, and the decoder reads any nonzero byte as true.

use vstd::bytes::*;
use vstd::prelude::*;
use vstd::slice::slice_subrange;

use crate::errors::TamponError;
use crate::tampon::copy_into;
use crate::tampon::splice;
use crate::tampon::Tampon;

verus! {

/// The boolean decoder accepts non-canonical encodings: any nonzero leading
/// byte reads as true, though the encoder only ever emits 0 or 1.
pub proof fn lemma_bool_decode_nonzero(byte: u8, tail: Seq<u8>)
    ensures
        <bool as Tampon>::spec_decode(seq![byte] + tail) == Some((byte != 0, 1int)),
{
}

impl Tampon for bool {
    open spec fn wire(&self) -> Seq<u8> {
        seq![if *self { 1u8 } else { 0u8 }]
    }

    open spec fn wf(&self) -> bool {
        true
    }

    open spec fn spec_decode(bytes: Seq<u8>) -> Option<(bool, int)> {
        if bytes.len() >= 1 {
            Some((bytes[0] != 0, 1))
        } else {
            None
        }
    }

    open spec fn spec_decode_err(bytes: Seq<u8>) -> TamponError {
        TamponError::BufferTooSmall
    }

    proof fn lemma_decode_len(bytes: Seq<u8>) {
    }

    proof fn lemma_round_trip(v: Self, tail: Seq<u8>) {
    }

    fn bytes_size(&self) -> (n: usize) {
        1
    }

    fn try_bytes_size(&self) -> (r: Option<usize>) {
        Some(1)
    }

    fn serialize(&self, buffer: &mut Vec<u8>, index: usize) -> (n: usize) {
        let byte: u8 = if *self {
            1
        } else {
            0
        };
        buffer.set(index, byte);
        proof {
            assert(final(buffer)@ =~= splice(old(buffer)@, index as int, self.wire()));
        }
        1
    }

    fn deserialize(buffer: &Vec<u8>, index: usize) -> (r: Result<(Self, usize), TamponError>) {
        if index < buffer.len() {
            Ok((buffer[index] != 0, 1))
        } else {
            Err(TamponError::BufferTooSmall)
        }
    }
}

impl Tampon for u8 {
    open spec fn wire(&self) -> Seq<u8> {
        seq![*self]
    }

    open spec fn wf(&self) -> bool {
        true
    }

    open spec fn spec_decode(bytes: Seq<u8>) -> Option<(u8, int)> {
        if bytes.len() >= 1 {
            Some((bytes[0], 1))
        } else {
            None
        }
    }

    open spec fn spec_decode_err(bytes: Seq<u8>) -> TamponError {
        TamponError::BufferTooSmall
    }

    proof fn lemma_decode_len(bytes: Seq<u8>) {
    }

    proof fn lemma_round_trip(v: Self, tail: Seq<u8>) {
    }

    fn bytes_size(&self) -> (n: usize) {
        1
    }

    fn try_bytes_size(&self) -> (r: Option<usize>) {
        Some(1)
    }

    fn serialize(&self, buffer: &mut Vec<u8>, index: usize) -> (n: usize) {
        buffer.set(index, *self);
        proof {
            assert(final(buffer)@ =~= splice(old(buffer)@, index as int, self.wire()));
        }
        1
    }

    fn deserialize(buffer: &Vec<u8>, index: usize) -> (r: Result<(Self, usize), TamponError>) {
        if index < buffer.len() {
            Ok((buffer[index], 1))
        } else {
            Err(TamponError::BufferTooSmall)
        }
    }
}

impl Tampon for u16 {
    open spec fn wire(&self) -> Seq<u8> {
        spec_u16_to_le_bytes(*self)
    }

    open spec fn wf(&self) -> bool {
        true
    }

    open spec fn spec_decode(bytes: Seq<u8>) -> Option<(u16, int)> {
        if bytes.len() >= 2 {
            Some((spec_u16_from_le_bytes(bytes.subrange(0, 2)), 2))
        } else {
            None
        }
    }

    open spec fn spec_decode_err(bytes: Seq<u8>) -> TamponError {
        TamponError::BufferTooSmall
    }

    proof fn lemma_decode_len(bytes: Seq<u8>) {
    }

    proof fn lemma_round_trip(v: Self, tail: Seq<u8>) {
        lemma_auto_spec_u16_to_from_le_bytes();
        assert((v.wire() + tail).subrange(0, 2) =~= v.wire());
    }

    fn bytes_size(&self) -> (n: usize) {
        proof {
            lemma_auto_spec_u16_to_from_le_bytes();
        }
        2
    }

    fn try_bytes_size(&self) -> (r: Option<usize>) {
        proof {
            lemma_auto_spec_u16_to_from_le_bytes();
        }
        Some(2)
    }

    fn serialize(&self, buffer: &mut Vec<u8>, index: usize) -> (n: usize) {
        proof {
            lemma_auto_spec_u16_to_from_le_bytes();
        }
        let bs = u16_to_le_bytes(*self);
        copy_into(bs.as_slice(), buffer, index);
        2
    }

    fn deserialize(buffer: &Vec<u8>, index: usize) -> (r: Result<(Self, usize), TamponError>) {
        proof {
            lemma_auto_spec_u16_to_from_le_bytes();
        }
        if buffer.len() - index >= 2 {
            let s = slice_subrange(buffer.as_slice(), index, index + 2);
            let x = u16_from_le_bytes(s);
            proof {
                assert(buffer@.subrange(index as int, index as int + 2) =~= buffer@.skip(
                    index as int,
                ).subrange(0, 2));
            }
            Ok((x, 2))
        } else {
            Err(TamponError::BufferTooSmall)
        }
    }
}

impl Tampon for u32 {
    open spec fn wire(&self) -> Seq<u8> {
        spec_u32_to_le_bytes(*self)
    }

    open spec fn wf(&self) -> bool {
        true
    }

    open spec fn spec_decode(bytes: Seq<u8>) -> Option<(u32, int)> {
        if bytes.len() >= 4 {
            Some((spec_u32_from_le_bytes(bytes.subrange(0, 4)), 4))
        } else {
            None
        }
    }

    open spec fn spec_decode_err(bytes: Seq<u8>) -> TamponError {
        TamponError::BufferTooSmall
    }

    proof fn lemma_decode_len(bytes: Seq<u8>) {
    }

    proof fn lemma_round_trip(v: Self, tail: Seq<u8>) {
        lemma_auto_spec_u32_to_from_le_bytes();
        assert((v.wire() + tail).subrange(0, 4) =~= v.wire());
    }

    fn bytes_size(&self) -> (n: usize) {
        proof {
            lemma_auto_spec_u32_to_from_le_bytes();
        }
        4
    }

    fn try_bytes_size(&self) -> (r: Option<usize>) {
        proof {
            lemma_auto_spec_u32_to_from_le_bytes();
        }
        Some(4)
    }

    fn serialize(&self, buffer: &mut Vec<u8>, index: usize) -> (n: usize) {
        proof {
            lemma_auto_spec_u32_to_from_le_bytes();
        }
        let bs = u32_to_le_bytes(*self);
        copy_into(bs.as_slice(), buffer, index);
        4
    }

    fn deserialize(buffer: &Vec<u8>, index: usize) -> (r: Result<(Self, usize), TamponError>) {
        proof {
            lemma_auto_spec_u32_to_from_le_bytes();
        }
        if buffer.len() - index >= 4 {
            let s = slice_subrange(buffer.as_slice(), index, index + 4);
            let x = u32_from_le_bytes(s);
            proof {
                assert(buffer@.subrange(index as int, index as int + 4) =~= buffer@.skip(
                    index as int,
                ).subrange(0, 4));
            }
            Ok((x, 4))
        } else {
            Err(TamponError::BufferTooSmall)
        }
    }
}

impl Tampon for u64 {
    open spec fn wire(&self) -> Seq<u8> {
        spec_u64_to_le_bytes(*self)
    }

    open spec fn wf(&self) -> bool {
        true
    }

    open spec fn spec_decode(bytes: Seq<u8>) -> Option<(u64, int)> {
        if bytes.len() >= 8 {
            Some((spec_u64_from_le_bytes(bytes.subrange(0, 8)), 8))
        } else {
            None
        }
    }

    open spec fn spec_decode_err(bytes: Seq<u8>) -> TamponError {
        TamponError::BufferTooSmall
    }

    proof fn lemma_decode_len(bytes: Seq<u8>) {
    }

    proof fn lemma_round_trip(v: Self, tail: Seq<u8>) {
        lemma_auto_spec_u64_to_from_le_bytes();
        assert((v.wire() + tail).subrange(0, 8) =~= v.wire());
    }

    fn bytes_size(&self) -> (n: usize) {
        proof {
            lemma_auto_spec_u64_to_from_le_bytes();
        }
        8
    }

    fn try_bytes_size(&self) -> (r: Option<usize>) {
        proof {
            lemma_auto_spec_u64_to_from_le_bytes();
        }
        Some(8)
    }

    fn serialize(&self, buffer: &mut Vec<u8>, index: usize) -> (n: usize) {
        proof {
            lemma_auto_spec_u64_to_from_le_bytes();
        }
        let bs = u64_to_le_bytes(*self);
        copy_into(bs.as_slice(), buffer, index);
        8
    }

    fn deserialize(buffer: &Vec<u8>, index: usize) -> (r: Result<(Self, usize), TamponError>) {
        proof {
            lemma_auto_spec_u64_to_from_le_bytes();
        }
        if buffer.len() - index >= 8 {
            let s = slice_subrange(buffer.as_slice(), index, index + 8);
            let x = u64_from_le_bytes(s);
            proof {
                assert(buffer@.subrange(index as int, index as int + 8) =~= buffer@.skip(
                    index as int,
                ).subrange(0, 8));
            }
            Ok((x, 8))
        } else {
            Err(TamponError::BufferTooSmall)
        }
    }
}

impl Tampon for u128 {
    open spec fn wire(&self) -> Seq<u8> {
        spec_u128_to_le_bytes(*self)
    }

    open spec fn wf(&self) -> bool {
        true
    }

    open spec fn spec_decode(bytes: Seq<u8>) -> Option<(u128, int)> {
        if bytes.len() >= 16 {
            Some((spec_u128_from_le_bytes(bytes.subrange(0, 16)), 16))
        } else {
            None
        }
    }

    open spec fn spec_decode_err(bytes: Seq<u8>) -> TamponError {
        TamponError::BufferTooSmall
    }

    proof fn lemma_decode_len(bytes: Seq<u8>) {
    }

    proof fn lemma_round_trip(v: Self, tail: Seq<u8>) {
        lemma_auto_spec_u128_to_from_le_bytes();
        assert((v.wire() + tail).subrange(0, 16) =~= v.wire());
    }

    fn bytes_size(&self) -> (n: usize) {
        proof {
            lemma_auto_spec_u128_to_from_le_bytes();
        }
        16
    }

    fn try_bytes_size(&self) -> (r: Option<usize>) {
        proof {
            lemma_auto_spec_u128_to_from_le_bytes();
        }
        Some(16)
    }

    fn serialize(&self, buffer: &mut Vec<u8>, index: usize) -> (n: usize) {
        proof {
            lemma_auto_spec_u128_to_from_le_bytes();
        }
        let bs = u128_to_le_bytes(*self);
        copy_into(bs.as_slice(), buffer, index);
        16
    }

    fn deserialize(buffer: &Vec<u8>, index: usize) -> (r: Result<(Self, usize), TamponError>) {
        proof {
            lemma_auto_spec_u128_to_from_le_bytes();
        }
        if buffer.len() - index >= 16 {
            let s = slice_subrange(buffer.as_slice(), index, index + 16);
            let x = u128_from_le_bytes(s);
            proof {
                assert(buffer@.subrange(index as int, index as int + 16) =~= buffer@.skip(
                    index as int,
                ).subrange(0, 16));
            }
            Ok((x, 16))
        } else {
            Err(TamponError::BufferTooSmall)
        }
    }
}

impl Tampon for i8 {
    open spec fn wire(&self) -> Seq<u8> {
        seq![*self as u8]
    }

    open spec fn wf(&self) -> bool {
        true
    }

    open spec fn spec_decode(bytes: Seq<u8>) -> Option<(i8, int)> {
        if bytes.len() >= 1 {
            Some((bytes[0] as i8, 1))
        } else {
            None
        }
    }

    open spec fn spec_decode_err(bytes: Seq<u8>) -> TamponError {
        TamponError::BufferTooSmall
    }

    proof fn lemma_decode_len(bytes: Seq<u8>) {
    }

    proof fn lemma_round_trip(v: Self, tail: Seq<u8>) {
        assert((v as u8) as i8 == v) by (bit_vector);
    }

    fn bytes_size(&self) -> (n: usize) {
        1
    }

    fn try_bytes_size(&self) -> (r: Option<usize>) {
        Some(1)
    }

    fn serialize(&self, buffer: &mut Vec<u8>, index: usize) -> (n: usize) {
        buffer.set(index, *self as u8);
        proof {
            assert(final(buffer)@ =~= splice(old(buffer)@, index as int, self.wire()));
        }
        1
    }

    fn deserialize(buffer: &Vec<u8>, index: usize) -> (r: Result<(Self, usize), TamponError>) {
        if index < buffer.len() {
            Ok((buffer[index] as i8, 1))
        } else {
            Err(TamponError::BufferTooSmall)
        }
    }
}

impl Tampon for i16 {
    open spec fn wire(&self) -> Seq<u8> {
        spec_u16_to_le_bytes(*self as u16)
    }

    open spec fn wf(&self) -> bool {
        true
    }

    open spec fn spec_decode(bytes: Seq<u8>) -> Option<(i16, int)> {
        if bytes.len() >= 2 {
            Some((spec_u16_from_le_bytes(bytes.subrange(0, 2)) as i16, 2))
        } else {
            None
        }
    }

    open spec fn spec_decode_err(bytes: Seq<u8>) -> TamponError {
        TamponError::BufferTooSmall
    }

    proof fn lemma_decode_len(bytes: Seq<u8>) {
    }

    proof fn lemma_round_trip(v: Self, tail: Seq<u8>) {
        lemma_auto_spec_u16_to_from_le_bytes();
        assert((v.wire() + tail).subrange(0, 2) =~= v.wire());
        assert((v as u16) as i16 == v) by (bit_vector);
    }

    fn bytes_size(&self) -> (n: usize) {
        proof {
            lemma_auto_spec_u16_to_from_le_bytes();
        }
        2
    }

    fn try_bytes_size(&self) -> (r: Option<usize>) {
        proof {
            lemma_auto_spec_u16_to_from_le_bytes();
        }
        Some(2)
    }

    fn serialize(&self, buffer: &mut Vec<u8>, index: usize) -> (n: usize) {
        proof {
            lemma_auto_spec_u16_to_from_le_bytes();
        }
        let bs = u16_to_le_bytes(*self as u16);
        copy_into(bs.as_slice(), buffer, index);
        2
    }

    fn deserialize(buffer: &Vec<u8>, index: usize) -> (r: Result<(Self, usize), TamponError>) {
        proof {
            lemma_auto_spec_u16_to_from_le_bytes();
        }
        if buffer.len() - index >= 2 {
            let s = slice_subrange(buffer.as_slice(), index, index + 2);
            let x = u16_from_le_bytes(s);
            proof {
                assert(buffer@.subrange(index as int, index as int + 2) =~= buffer@.skip(
                    index as int,
                ).subrange(0, 2));
            }
            Ok((x as i16, 2))
        } else {
            Err(TamponError::BufferTooSmall)
        }
    }
}

impl Tampon for i32 {
    open spec fn wire(&self) -> Seq<u8> {
        spec_u32_to_le_bytes(*self as u32)
    }

    open spec fn wf(&self) -> bool {
        true
    }

    open spec fn spec_decode(bytes: Seq<u8>) -> Option<(i32, int)> {
        if bytes.len() >= 4 {
            Some((spec_u32_from_le_bytes(bytes.subrange(0, 4)) as i32, 4))
        } else {
            None
        }
    }

    open spec fn spec_decode_err(bytes: Seq<u8>) -> TamponError {
        TamponError::BufferTooSmall
    }

    proof fn lemma_decode_len(bytes: Seq<u8>) {
    }

    proof fn lemma_round_trip(v: Self, tail: Seq<u8>) {
        lemma_auto_spec_u32_to_from_le_bytes();
        assert((v.wire() + tail).subrange(0, 4) =~= v.wire());
        assert((v as u32) as i32 == v) by (bit_vector);
    }

    fn bytes_size(&self) -> (n: usize) {
        proof {
            lemma_auto_spec_u32_to_from_le_bytes();
        }
        4
    }

    fn try_bytes_size(&self) -> (r: Option<usize>) {
        proof {
            lemma_auto_spec_u32_to_from_le_bytes();
        }
        Some(4)
    }

    fn serialize(&self, buffer: &mut Vec<u8>, index: usize) -> (n: usize) {
        proof {
            lemma_auto_spec_u32_to_from_le_bytes();
        }
        let bs = u32_to_le_bytes(*self as u32);
        copy_into(bs.as_slice(), buffer, index);
        4
    }

    fn deserialize(buffer: &Vec<u8>, index: usize) -> (r: Result<(Self, usize), TamponError>) {
        proof {
            lemma_auto_spec_u32_to_from_le_bytes();
        }
        if buffer.len() - index >= 4 {
            let s = slice_subrange(buffer.as_slice(), index, index + 4);
            let x = u32_from_le_bytes(s);
            proof {
                assert(buffer@.subrange(index as int, index as int + 4) =~= buffer@.skip(
                    index as int,
                ).subrange(0, 4));
            }
            Ok((x as i32, 4))
        } else {
            Err(TamponError::BufferTooSmall)
        }
    }
}

impl Tampon for i64 {
    open spec fn wire(&self) -> Seq<u8> {
        spec_u64_to_le_bytes(*self as u64)
    }

    open spec fn wf(&self) -> bool {
        true
    }

    open spec fn spec_decode(bytes: Seq<u8>) -> Option<(i64, int)> {
        if bytes.len() >= 8 {
            Some((spec_u64_from_le_bytes(bytes.subrange(0, 8)) as i64, 8))
        } else {
            None
        }
    }

    open spec fn spec_decode_err(bytes: Seq<u8>) -> TamponError {
        TamponError::BufferTooSmall
    }

    proof fn lemma_decode_len(bytes: Seq<u8>) {
    }

    proof fn lemma_round_trip(v: Self, tail: Seq<u8>) {
        lemma_auto_spec_u64_to_from_le_bytes();
        assert((v.wire() + tail).subrange(0, 8) =~= v.wire());
        assert((v as u64) as i64 == v) by (bit_vector);
    }

    fn bytes_size(&self) -> (n: usize) {
        proof {
            lemma_auto_spec_u64_to_from_le_bytes();
        }
        8
    }

    fn try_bytes_size(&self) -> (r: Option<usize>) {
        proof {
            lemma_auto_spec_u64_to_from_le_bytes();
        }
        Some(8)
    }

    fn serialize(&self, buffer: &mut Vec<u8>, index: usize) -> (n: usize) {
        proof {
            lemma_auto_spec_u64_to_from_le_bytes();
        }
        let bs = u64_to_le_bytes(*self as u64);
        copy_into(bs.as_slice(), buffer, index);
        8
    }

    fn deserialize(buffer: &Vec<u8>, index: usize) -> (r: Result<(Self, usize), TamponError>) {
        proof {
            lemma_auto_spec_u64_to_from_le_bytes();
        }
        if buffer.len() - index >= 8 {
            let s = slice_subrange(buffer.as_slice(), index, index + 8);
            let x = u64_from_le_bytes(s);
            proof {
                assert(buffer@.subrange(index as int, index as int + 8) =~= buffer@.skip(
                    index as int,
                ).subrange(0, 8));
            }
            Ok((x as i64, 8))
        } else {
            Err(TamponError::BufferTooSmall)
        }
    }
}

impl Tampon for i128 {
    open spec fn wire(&self) -> Seq<u8> {
        spec_u128_to_le_bytes(*self as u128)
    }

    open spec fn wf(&self) -> bool {
        true
    }

    open spec fn spec_decode(bytes: Seq<u8>) -> Option<(i128, int)> {
        if bytes.len() >= 16 {
            Some((spec_u128_from_le_bytes(bytes.subrange(0, 16)) as i128, 16))
        } else {
            None
        }
    }

    open spec fn spec_decode_err(bytes: Seq<u8>) -> TamponError {
        TamponError::BufferTooSmall
    }

    proof fn lemma_decode_len(bytes: Seq<u8>) {
    }

    proof fn lemma_round_trip(v: Self, tail: Seq<u8>) {
        lemma_auto_spec_u128_to_from_le_bytes();
        assert((v.wire() + tail).subrange(0, 16) =~= v.wire());
        assert((v as u128) as i128 == v) by (bit_vector);
    }

    fn bytes_size(&self) -> (n: usize) {
        proof {
            lemma_auto_spec_u128_to_from_le_bytes();
        }
        16
    }

    fn try_bytes_size(&self) -> (r: Option<usize>) {
        proof {
            lemma_auto_spec_u128_to_from_le_bytes();
        }
        Some(16)
    }

    fn serialize(&self, buffer: &mut Vec<u8>, index: usize) -> (n: usize) {
        proof {
            lemma_auto_spec_u128_to_from_le_bytes();
        }
        let bs = u128_to_le_bytes(*self as u128);
        copy_into(bs.as_slice(), buffer, index);
        16
    }

    fn deserialize(buffer: &Vec<u8>, index: usize) -> (r: Result<(Self, usize), TamponError>) {
        proof {
            lemma_auto_spec_u128_to_from_le_bytes();
        }
        if buffer.len() - index >= 16 {
            let s = slice_subrange(buffer.as_slice(), index, index + 16);
            let x = u128_from_le_bytes(s);
            proof {
                assert(buffer@.subrange(index as int, index as int + 16) =~= buffer@.skip(
                    index as int,
                ).subrange(0, 16));
            }
            Ok((x as i128, 16))
        } else {
            Err(TamponError::BufferTooSmall)
        }
    }
}

} // verus!
