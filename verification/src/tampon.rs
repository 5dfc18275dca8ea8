//! The capability that every encodable value implements.
//!
//! A type joins the codec by giving its wire encoding as a mathematical byte
//! sequence ([`Tampon::wire`]), a mathematical decoder over byte sequences
//! ([`Tampon::spec_decode`]), executable operations proved against the two,
//! and a proof that decoding undoes encoding.

use vstd::prelude::*;

use crate::errors::TamponError;

verus! {

/// `orig` with the bytes starting at `index` replaced by `patch`.
///
/// This is how a serializer changes a buffer: everything outside the written
/// window is untouched.
pub open spec fn splice(orig: Seq<u8>, index: int, patch: Seq<u8>) -> Seq<u8>
    recommends
        0 <= index,
        index + patch.len() <= orig.len(),
{
    orig.subrange(0, index) + patch + orig.subrange(index + patch.len(), orig.len() as int)
}

/// Splicing keeps the length of the buffer.
pub proof fn lemma_splice_len(orig: Seq<u8>, index: int, patch: Seq<u8>)
    requires
        0 <= index,
        index + patch.len() <= orig.len(),
    ensures
        splice(orig, index, patch).len() == orig.len(),
{
}

/// Two writes into adjacent windows amount to one write of the concatenation.
pub proof fn lemma_splice_adjacent(orig: Seq<u8>, index: int, w1: Seq<u8>, w2: Seq<u8>)
    requires
        0 <= index,
        index + w1.len() + w2.len() <= orig.len(),
    ensures
        splice(splice(orig, index, w1), index + w1.len(), w2) == splice(orig, index, w1 + w2),
{
    let lhs = splice(splice(orig, index, w1), index + w1.len(), w2);
    let rhs = splice(orig, index, w1 + w2);
    assert forall|i: int| 0 <= i < lhs.len() implies lhs[i] == rhs[i] by {
        lemma_splice_len(orig, index, w1);
    }
    assert(lhs =~= rhs);
}

/// The capability of an encodable value: compute its encoded size, write
/// itself into a buffer, and parse a new instance back out of a buffer.
///
/// The wire layout is fixed per type and value: `wire()` is the exact byte
/// sequence an encoder produces, and `spec_decode` is the exact mathematical
/// decoder, returning the model (deep view) of the parsed value and the
/// number of bytes consumed, or `None` when the bytes do not start with a
/// decodable encoding. [`Tampon::lemma_round_trip`] obliges every implementor
/// to prove that decoding undoes encoding, whatever bytes follow.
pub trait Tampon: DeepView + Sized {
    /// The exact bytes this value encodes to.
    spec fn wire(&self) -> Seq<u8>;

    /// Whether this value can be encoded at all: every sequence count and
    /// string byte length in it must fit the 4-byte length prefix.
    spec fn wf(&self) -> bool;

    /// The mathematical decoder: the model of the value read from the start
    /// of `bytes`, with the count of bytes consumed.
    spec fn spec_decode(bytes: Seq<u8>) -> Option<(<Self as DeepView>::V, int)>;

    /// Which error the decoder reports on bytes it cannot decode.
    spec fn spec_decode_err(bytes: Seq<u8>) -> TamponError;

    /// A successful decode consumes between 0 and `bytes.len()` bytes.
    proof fn lemma_decode_len(bytes: Seq<u8>)
        ensures
            Self::spec_decode(bytes) matches Some((v, n)) ==> 0 <= n <= bytes.len(),
    ;

    /// Round trip: decoding an encoded value, whatever bytes follow it,
    /// yields that value back and consumes exactly its encoding.
    proof fn lemma_round_trip(v: Self, tail: Seq<u8>)
        requires
            v.wf(),
        ensures
            Self::spec_decode(v.wire() + tail) == Some((v.deep_view(), v.wire().len() as int)),
    ;

    /// The encoded size of this value in bytes.
    fn bytes_size(&self) -> (n: usize)
        requires
            self.wf(),
            self.wire().len() <= usize::MAX,
        ensures
            n == self.wire().len(),
    ;

    /// The encoded size of this value, or `None` when the value cannot be
    /// encoded (a length prefix would not fit, or the size overflows).
    fn try_bytes_size(&self) -> (r: Option<usize>)
        ensures
            r matches Some(n) ==> self.wf() && n == self.wire().len(),
            self.wf() && self.wire().len() <= usize::MAX ==> r is Some,
    ;

    /// Write this value into `buffer` at `index`; the rest of the buffer is
    /// untouched. Returns the count of bytes written, which always equals
    /// `bytes_size()`.
    fn serialize(&self, buffer: &mut Vec<u8>, index: usize) -> (n: usize)
        requires
            self.wf(),
            index + self.wire().len() <= old(buffer)@.len(),
        ensures
            n == self.wire().len(),
            final(buffer)@ == splice(old(buffer)@, index as int, self.wire()),
    ;

    /// Parse a new value out of `buffer` starting at `index`, with the count
    /// of bytes consumed. Succeeds exactly when the bytes there start with a
    /// decodable encoding; no partial value is produced on failure.
    fn deserialize(buffer: &Vec<u8>, index: usize) -> (r: Result<(Self, usize), TamponError>)
        requires
            index <= buffer@.len(),
        ensures
            r matches Ok((v, n)) ==> Self::spec_decode(buffer@.skip(index as int)) == Some(
                (v.deep_view(), n as int),
            ) && v.wf(),
            r matches Err(e) ==> Self::spec_decode(buffer@.skip(index as int)) is None && e
                == Self::spec_decode_err(buffer@.skip(index as int)),
            Self::spec_decode(buffer@.skip(index as int)) is Some ==> r is Ok,
    ;
}

/// Copy `src` whole into `buffer` at `index`, leaving the rest untouched.
pub(crate) fn copy_into(src: &[u8], buffer: &mut Vec<u8>, index: usize)
    requires
        index + src@.len() <= old(buffer)@.len(),
    ensures
        final(buffer)@ == splice(old(buffer)@, index as int, src@),
{
    let n = src.len();
    let buffer_len = buffer.len();
    let mut i: usize = 0;
    while i < n
        invariant
            n == src@.len(),
            i <= n,
            index + n <= old(buffer)@.len(),
            old(buffer)@.len() == buffer_len,
            buffer@.len() == old(buffer)@.len(),
            forall|j: int| 0 <= j < i ==> buffer@[index + j] == src@[j],
            forall|j: int|
                0 <= j < buffer@.len() && !(index <= j < index + i) ==> buffer@[j] == old(
                    buffer,
                )@[j],
        decreases n - i,
    {
        let b = src[i];
        buffer.set(index + i, b);
        i = i + 1;
    }
    proof {
        assert(buffer@ =~= splice(old(buffer)@, index as int, src@));
    }
}

/// Serialize a value after checking that it can be encoded and that the
/// buffer has room, instead of requiring the caller to know it.
///
/// On success the buffer holds the value's encoding at `index` and the rest
/// is untouched; on failure the buffer is unchanged and no bytes are written.
pub fn try_serialize<T: Tampon>(value: &T, buffer: &mut Vec<u8>, index: usize) -> (r: Result<
    usize,
    TamponError,
>)
    ensures
        r matches Ok(n) ==> value.wf() && n == value.wire().len() && index + n <= old(
            buffer,
        )@.len() && final(buffer)@ == splice(old(buffer)@, index as int, value.wire()),
        r matches Err(e) ==> e == TamponError::BufferTooSmall && final(buffer)@ == old(buffer)@
            && !(value.wf() && index + value.wire().len() <= old(buffer)@.len()),
        value.wf() && index + value.wire().len() <= old(buffer)@.len() ==> r is Ok,
{
    let buffer_len = buffer.len();
    match value.try_bytes_size() {
        Some(n) => {
            if index <= buffer_len && n <= buffer_len - index {
                Ok(value.serialize(buffer, index))
            } else {
                Err(TamponError::BufferTooSmall)
            }
        },
        None => {
            proof {
                assert(old(buffer)@.len() == buffer_len);
            }
            Err(TamponError::BufferTooSmall)
        },
    }
}

/// The wire layout of a field list: the encodings of its fields, in
/// declaration order, concatenated with no padding and no framing.
pub open spec fn list_wire(fields: Seq<Seq<u8>>) -> Seq<u8>
    decreases fields.len(),
{
    if fields.len() == 0 {
        Seq::empty()
    } else {
        fields[0] + list_wire(fields.drop_first())
    }
}

/// Size additivity: the size of two field lists laid end to end is the sum
/// of their sizes, because the wire layout of the whole is the two layouts
/// concatenated.
pub proof fn lemma_list_wire_concat(f1: Seq<Seq<u8>>, f2: Seq<Seq<u8>>)
    ensures
        list_wire(f1 + f2) == list_wire(f1) + list_wire(f2),
        list_wire(f1 + f2).len() == list_wire(f1).len() + list_wire(f2).len(),
    decreases f1.len(),
{
    if f1.len() == 0 {
        assert(f1 + f2 =~= f2);
        assert(list_wire(f1) + list_wire(f2) =~= list_wire(f2));
    } else {
        assert((f1 + f2).drop_first() =~= f1.drop_first() + f2);
        lemma_list_wire_concat(f1.drop_first(), f2);
        assert(list_wire(f1 + f2) =~= list_wire(f1) + list_wire(f2));
    }
}

/// Round trip: for any well-formed encodable value, decoding its encoding,
/// whatever bytes follow it, yields the value's model back and consumes
/// exactly as many bytes as `bytes_size` reports.
pub proof fn lemma_wire_round_trip<T: Tampon>(v: T, tail: Seq<u8>)
    requires
        v.wf(),
    ensures
        T::spec_decode(v.wire() + tail) == Some((v.deep_view(), v.wire().len() as int)),
{
    T::lemma_round_trip(v, tail);
}

/// Round trip through a buffer: after a value is written at `index` into a
/// buffer with room for it, decoding that buffer at `index` yields the
/// value's model back and consumes exactly its encoded size.
pub proof fn lemma_write_then_read<T: Tampon>(orig: Seq<u8>, index: int, v: T)
    requires
        v.wf(),
        0 <= index,
        index + v.wire().len() <= orig.len(),
    ensures
        T::spec_decode(splice(orig, index, v.wire()).skip(index)) == Some(
            (v.deep_view(), v.wire().len() as int),
        ),
{
    let tail = orig.subrange(index + v.wire().len(), orig.len() as int);
    assert(splice(orig, index, v.wire()).skip(index) =~= v.wire() + tail);
    T::lemma_round_trip(v, tail);
}

/// Allocate a zero-filled buffer of exactly `size` bytes, ready for a write
/// pass sized by `bytes_size`.
pub fn new_buffer(size: usize) -> (buffer: Vec<u8>)
    ensures
        buffer@.len() == size,
        forall|i: int| 0 <= i < size ==> buffer@[i] == 0u8,
{
    let mut buffer: Vec<u8> = Vec::new();
    let mut i: usize = 0;
    while i < size
        invariant
            i <= size,
            buffer@.len() == i,
            forall|j: int| 0 <= j < i ==> buffer@[j] == 0u8,
        decreases size - i,
    {
        buffer.push(0);
        i = i + 1;
    }
    buffer
}

} // verus!
