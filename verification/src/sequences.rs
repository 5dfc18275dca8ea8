//! The codec for sequences of encodable values.
//!
//! A sequence is encoded as a 4-byte little-endian element count followed by
//! each element's own encoding, concatenated in order. An empty sequence
//! still costs the 4 prefix bytes. Decoding reads the count, then decodes
//! that many elements one after the other, each consuming its own width.

use vstd::bytes::*;
use vstd::prelude::*;
use vstd::slice::slice_subrange;

use crate::errors::TamponError;
use crate::tampon::copy_into;
use crate::tampon::lemma_splice_adjacent;
use crate::tampon::splice;
use crate::tampon::Tampon;

verus! {

/// The concatenation of the encodings of a sequence of values, with no
/// prefix and no framing: exactly how a field list or the payload of an
/// encoded sequence is laid out.
pub open spec fn seq_wire<T: Tampon>(elems: Seq<T>) -> Seq<u8>
    decreases elems.len(),
{
    if elems.len() == 0 {
        Seq::empty()
    } else {
        elems[0].wire() + seq_wire(elems.drop_first())
    }
}

/// Every element of the sequence can be encoded.
pub open spec fn seq_wf<T: Tampon>(elems: Seq<T>) -> bool {
    forall|i: int| 0 <= i < elems.len() ==> (#[trigger] elems[i]).wf()
}

/// The models of the elements of a sequence, in order.
pub open spec fn deep_seq<T: Tampon>(elems: Seq<T>) -> Seq<<T as DeepView>::V> {
    Seq::new(elems.len(), |i: int| elems[i].deep_view())
}

/// The mathematical decoder for `count` consecutive elements: their models
/// and the total bytes consumed, or `None` as soon as one element cannot be
/// decoded.
pub open spec fn spec_decode_elems<T: Tampon>(bytes: Seq<u8>, count: nat) -> Option<
    (Seq<<T as DeepView>::V>, int),
>
    decreases count,
{
    if count == 0 {
        Some((Seq::empty(), 0))
    } else {
        match T::spec_decode(bytes) {
            Some((v, n)) => match spec_decode_elems::<T>(bytes.skip(n), (count - 1) as nat) {
                Some((vs, m)) => Some((seq![v] + vs, n + m)),
                None => None,
            },
            None => None,
        }
    }
}

/// Which error decoding `count` consecutive elements reports: the error of
/// the first element that cannot be decoded.
pub open spec fn spec_decode_elems_err<T: Tampon>(bytes: Seq<u8>, count: nat) -> TamponError
    decreases count,
{
    if count == 0 {
        TamponError::BufferTooSmall
    } else {
        match T::spec_decode(bytes) {
            Some((v, n)) => spec_decode_elems_err::<T>(bytes.skip(n), (count - 1) as nat),
            None => T::spec_decode_err(bytes),
        }
    }
}

/// Size additivity: the wire layout of two field lists laid end to end is
/// the two layouts concatenated, so its size is the sum of their sizes.
pub proof fn lemma_seq_wire_concat<T: Tampon>(a: Seq<T>, b: Seq<T>)
    ensures
        seq_wire(a + b) == seq_wire(a) + seq_wire(b),
        seq_wire(a + b).len() == seq_wire(a).len() + seq_wire(b).len(),
    decreases a.len(),
{
    if a.len() == 0 {
        assert(a + b =~= b);
        assert(seq_wire(a) + seq_wire(b) =~= seq_wire(b));
    } else {
        assert((a + b).drop_first() =~= a.drop_first() + b);
        lemma_seq_wire_concat(a.drop_first(), b);
        assert(seq_wire(a + b) =~= seq_wire(a) + seq_wire(b));
    }
}

/// Appending one element to a field list appends its encoding to the wire
/// layout.
pub proof fn lemma_seq_wire_snoc<T: Tampon>(elems: Seq<T>, i: int)
    requires
        0 <= i < elems.len(),
    ensures
        seq_wire(elems.take(i + 1)) == seq_wire(elems.take(i)) + elems[i].wire(),
{
    assert(elems.take(i + 1) =~= elems.take(i) + seq![elems[i]]);
    lemma_seq_wire_concat(elems.take(i), seq![elems[i]]);
    let s = seq![elems[i]];
    assert(s.drop_first() =~= Seq::<T>::empty());
    assert(seq_wire(s.drop_first()) == Seq::<u8>::empty());
    assert(seq_wire(s) == s[0].wire() + seq_wire(s.drop_first()));
    assert(seq_wire(s) =~= elems[i].wire());
}

/// The wire layout of any prefix of a field list is no longer than the wire
/// layout of the whole, and the remaining element at its boundary fits too.
pub proof fn lemma_seq_wire_prefix_len<T: Tampon>(elems: Seq<T>, i: int)
    requires
        0 <= i <= elems.len(),
    ensures
        seq_wire(elems.take(i)).len() <= seq_wire(elems).len(),
        i < elems.len() ==> seq_wire(elems.take(i)).len() + elems[i].wire().len() <= seq_wire(
            elems,
        ).len(),
{
    if i < elems.len() {
        lemma_seq_wire_snoc(elems, i);
        assert(elems =~= elems.take(i + 1) + elems.skip(i + 1));
        lemma_seq_wire_concat(elems.take(i + 1), elems.skip(i + 1));
    } else {
        assert(elems.take(i) =~= elems);
    }
}

/// A successful element-list decode consumes between 0 and `bytes.len()`
/// bytes and yields exactly `count` models.
pub proof fn lemma_decode_elems_len<T: Tampon>(bytes: Seq<u8>, count: nat)
    ensures
        spec_decode_elems::<T>(bytes, count) matches Some((vs, m)) ==> 0 <= m <= bytes.len()
            && vs.len() == count,
    decreases count,
{
    if count > 0 {
        match T::spec_decode(bytes) {
            Some((v, n)) => {
                T::lemma_decode_len(bytes);
                lemma_decode_elems_len::<T>(bytes.skip(n), (count - 1) as nat);
            },
            None => {},
        }
    }
}

/// Round trip for an element list: decoding the concatenated encodings of
/// `count` well-formed values, whatever bytes follow, yields their models
/// and consumes exactly the concatenation.
pub proof fn lemma_seq_round_trip<T: Tampon>(elems: Seq<T>, tail: Seq<u8>)
    requires
        seq_wf(elems),
    ensures
        spec_decode_elems::<T>(seq_wire(elems) + tail, elems.len()) == Some(
            (deep_seq(elems), seq_wire(elems).len() as int),
        ),
    decreases elems.len(),
{
    if elems.len() == 0 {
        assert(deep_seq(elems) =~= Seq::<<T as DeepView>::V>::empty());
    } else {
        let head = elems[0];
        let rest = elems.drop_first();
        let bytes = seq_wire(elems) + tail;
        assert(bytes =~= head.wire() + (seq_wire(rest) + tail));
        T::lemma_round_trip(head, seq_wire(rest) + tail);
        T::lemma_decode_len(bytes);
        assert(bytes.skip(head.wire().len() as int) =~= seq_wire(rest) + tail);
        assert(seq_wf(rest)) by {
            assert(forall|i: int|
                0 <= i < rest.len() ==> rest[i] == elems[i + 1] && (#[trigger] rest[i]).wf());
        }
        lemma_seq_round_trip(rest, tail);
        assert(deep_seq(elems) =~= seq![head.deep_view()] + deep_seq(rest));
    }
}

/// An empty sequence encodes to exactly 4 bytes, whatever its element type:
/// the zero count prefix and nothing else.
pub proof fn lemma_empty_sequence_wire<T: Tampon>(v: Vec<T>)
    requires
        v@.len() == 0,
    ensures
        v.wire().len() == 4,
        v.wire() == spec_u32_to_le_bytes(0u32),
{
    lemma_auto_spec_u32_to_from_le_bytes();
    assert(v.wire() =~= spec_u32_to_le_bytes(0u32));
}

impl<T: Tampon> Tampon for Vec<T> {
    open spec fn wire(&self) -> Seq<u8> {
        spec_u32_to_le_bytes(self@.len() as u32) + seq_wire(self@)
    }

    open spec fn wf(&self) -> bool {
        self@.len() <= u32::MAX && seq_wf(self@)
    }

    open spec fn spec_decode(bytes: Seq<u8>) -> Option<(Seq<<T as DeepView>::V>, int)> {
        if bytes.len() < 4 {
            None
        } else {
            let count = spec_u32_from_le_bytes(bytes.subrange(0, 4)) as nat;
            match spec_decode_elems::<T>(bytes.skip(4), count) {
                Some((vs, m)) => Some((vs, 4 + m)),
                None => None,
            }
        }
    }

    open spec fn spec_decode_err(bytes: Seq<u8>) -> TamponError {
        if bytes.len() < 4 {
            TamponError::BufferTooSmall
        } else {
            let count = spec_u32_from_le_bytes(bytes.subrange(0, 4)) as nat;
            spec_decode_elems_err::<T>(bytes.skip(4), count)
        }
    }

    proof fn lemma_decode_len(bytes: Seq<u8>) {
        if bytes.len() >= 4 {
            let count = spec_u32_from_le_bytes(bytes.subrange(0, 4)) as nat;
            lemma_decode_elems_len::<T>(bytes.skip(4), count);
        }
    }

    proof fn lemma_round_trip(v: Self, tail: Seq<u8>) {
        lemma_auto_spec_u32_to_from_le_bytes();
        let prefix = spec_u32_to_le_bytes(v@.len() as u32);
        let bytes = v.wire() + tail;
        assert(bytes.subrange(0, 4) =~= prefix);
        assert(bytes.skip(4) =~= seq_wire(v@) + tail);
        lemma_seq_round_trip(v@, tail);
        assert(v.deep_view() =~= deep_seq(v@));
    }

    fn bytes_size(&self) -> (n: usize) {
        proof {
            lemma_auto_spec_u32_to_from_le_bytes();
        }
        let count = self.len();
        let mut total: usize = 4;
        let mut i: usize = 0;
        while i < count
            invariant
                self.wf(),
                self.wire().len() <= usize::MAX,
                self.wire().len() == 4 + seq_wire(self@).len(),
                count == self@.len(),
                i <= count,
                total == 4 + seq_wire(self@.take(i as int)).len(),
            decreases count - i,
        {
            proof {
                lemma_seq_wire_prefix_len(self@, i as int);
                lemma_seq_wire_snoc(self@, i as int);
            }
            total = total + self[i].bytes_size();
            i = i + 1;
        }
        proof {
            assert(self@.take(count as int) =~= self@);
        }
        total
    }

    fn try_bytes_size(&self) -> (r: Option<usize>) {
        proof {
            lemma_auto_spec_u32_to_from_le_bytes();
        }
        let count = self.len();
        if !(count as u64 <= u32::MAX as u64) {
            return None;
        }
        let mut total: usize = 4;
        let mut i: usize = 0;
        while i < count
            invariant
                count == self@.len(),
                count <= u32::MAX,
                i <= count,
                seq_wf(self@.take(i as int)),
                total == 4 + seq_wire(self@.take(i as int)).len(),
            decreases count - i,
        {
            proof {
                lemma_auto_spec_u32_to_from_le_bytes();
                lemma_seq_wire_snoc(self@, i as int);
                lemma_seq_wire_prefix_len(self@, i as int);
            }
            match self[i].try_bytes_size() {
                Some(n) => {
                    if n <= usize::MAX - total {
                        total = total + n;
                    } else {
                        return None;
                    }
                },
                None => {
                    return None;
                },
            }
            proof {
                assert(self@.take(i + 1) =~= self@.take(i as int) + seq![self@[i as int]]);
                assert(seq_wf(self@.take(i + 1)));
            }
            i = i + 1;
        }
        proof {
            assert(self@.take(count as int) =~= self@);
        }
        Some(total)
    }

    fn serialize(&self, buffer: &mut Vec<u8>, index: usize) -> (n: usize) {
        proof {
            lemma_auto_spec_u32_to_from_le_bytes();
        }
        let buffer_len = buffer.len();
        let count = self.len();
        let prefix = u32_to_le_bytes(count as u32);
        copy_into(prefix.as_slice(), buffer, index);
        let ghost whole = prefix@ + seq_wire(self@);
        let mut off: usize = index + 4;
        let mut i: usize = 0;
        while i < count
            invariant
                self.wf(),
                count == self@.len(),
                i <= count,
                prefix@ == spec_u32_to_le_bytes(count as u32),
                prefix@.len() == 4,
                index + 4 + seq_wire(self@).len() <= old(buffer)@.len(),
                old(buffer)@.len() == buffer_len,
                off == index + 4 + seq_wire(self@.take(i as int)).len(),
                buffer@ == splice(
                    old(buffer)@,
                    index as int,
                    prefix@ + seq_wire(self@.take(i as int)),
                ),
            decreases count - i,
        {
            proof {
                lemma_seq_wire_prefix_len(self@, i as int);
            }
            let n = self[i].serialize(buffer, off);
            proof {
                lemma_seq_wire_snoc(self@, i as int);
                lemma_splice_adjacent(
                    old(buffer)@,
                    index as int,
                    prefix@ + seq_wire(self@.take(i as int)),
                    self@[i as int].wire(),
                );
                assert((prefix@ + seq_wire(self@.take(i as int))) + self@[i as int].wire()
                    =~= prefix@ + seq_wire(self@.take(i + 1)));
            }
            off = off + n;
            i = i + 1;
        }
        proof {
            assert(self@.take(count as int) =~= self@);
        }
        off - index
    }

    fn deserialize(buffer: &Vec<u8>, index: usize) -> (r: Result<(Self, usize), TamponError>) {
        proof {
            lemma_auto_spec_u32_to_from_le_bytes();
        }
        let ghost suffix = buffer@.skip(index as int);
        let buffer_len = buffer.len();
        let remaining = buffer_len - index;
        if remaining < 4 {
            return Err(TamponError::BufferTooSmall);
        }
        let prefix_slice = slice_subrange(buffer.as_slice(), index, index + 4);
        proof {
            assert(prefix_slice@ =~= suffix.subrange(0, 4));
        }
        let count32 = u32_from_le_bytes(prefix_slice);
        let count = count32 as usize;
        let ghost payload = buffer@.skip(index as int + 4);
        proof {
            assert(payload =~= suffix.skip(4));
        }
        let mut out: Vec<T> = Vec::new();
        let mut off: usize = index + 4;
        let mut i: usize = 0;
        while i < count
            invariant
                index + 4 <= off <= buffer@.len(),
                buffer@.len() == buffer_len,
                suffix == buffer@.skip(index as int),
                payload == buffer@.skip(index as int + 4),
                payload == suffix.skip(4),
                suffix.len() == buffer_len - index,
                spec_u32_from_le_bytes(suffix.subrange(0, 4)) == count32,
                count == count32 as int,
                i <= count,
                out@.len() == i,
                seq_wf(out@),
                off - index - 4 >= 0,
                (match spec_decode_elems::<T>(
                    buffer@.skip(off as int),
                    (count - i) as nat,
                ) {
                    Some((vs, m)) => spec_decode_elems::<T>(payload, count as nat) == Some(
                        (deep_seq(out@) + vs, (off - index - 4) + m),
                    ),
                    None => spec_decode_elems::<T>(payload, count as nat) is None
                        && spec_decode_elems_err::<T>(payload, count as nat)
                        == spec_decode_elems_err::<T>(
                        buffer@.skip(off as int),
                        (count - i) as nat,
                    ),
                }),
            decreases count - i,
        {
            match T::deserialize(buffer, off) {
                Ok((v, n)) => {
                    proof {
                        T::lemma_decode_len(buffer@.skip(off as int));
                        assert(buffer@.skip(off as int).skip(n as int) =~= buffer@.skip(
                            off as int + n as int,
                        ));
                        let dv = v.deep_view();
                        assert(deep_seq(out@.push(v)) =~= deep_seq(out@) + seq![dv]);
                        match spec_decode_elems::<T>(
                            buffer@.skip(off as int + n as int),
                            (count - i - 1) as nat,
                        ) {
                            Some((vs2, m2)) => {
                                assert(spec_decode_elems::<T>(
                                    buffer@.skip(off as int),
                                    (count - i) as nat,
                                ) == Some((seq![dv] + vs2, n + m2)));
                                assert((deep_seq(out@) + seq![dv]) + vs2 =~= deep_seq(out@) + (
                                seq![dv] + vs2));
                            },
                            None => {
                                assert(spec_decode_elems::<T>(
                                    buffer@.skip(off as int),
                                    (count - i) as nat,
                                ) is None);
                                assert(spec_decode_elems_err::<T>(
                                    buffer@.skip(off as int),
                                    (count - i) as nat,
                                ) == spec_decode_elems_err::<T>(
                                    buffer@.skip(off as int + n as int),
                                    (count - i - 1) as nat,
                                ));
                            },
                        }
                        assert(seq_wf(out@.push(v)));
                    }
                    out.push(v);
                    off = off + n;
                },
                Err(e) => {
                    proof {
                        assert(spec_decode_elems::<T>(
                            buffer@.skip(off as int),
                            (count - i) as nat,
                        ) is None);
                        assert(spec_decode_elems_err::<T>(
                            buffer@.skip(off as int),
                            (count - i) as nat,
                        ) == T::spec_decode_err(buffer@.skip(off as int)));
                        assert(Self::spec_decode(suffix) is None);
                        assert(Self::spec_decode_err(suffix) == e);
                    }
                    return Err(e);
                },
            }
            i = i + 1;
        }
        proof {
            assert(spec_decode_elems::<T>(buffer@.skip(off as int), 0nat) == Some(
                (Seq::<<T as DeepView>::V>::empty(), 0int),
            ));
            assert(deep_seq(out@) + Seq::<<T as DeepView>::V>::empty() =~= deep_seq(out@));
            assert(out.deep_view() =~= deep_seq(out@));
            assert(Self::spec_decode(suffix) == Some((out.deep_view(), (off - index) as int)));
        }
        Ok((out, off - index))
    }
}

} // verus!
