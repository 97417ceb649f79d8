use vstd::prelude::*;
use crate::endianness::Endianness;
use crate::error::{BinarySerdeBufSafeError, DeserializeError};
use crate::serialize::BinarySerde;

verus! {

/// The error that a bounds-checked access of `size` bytes at `position`, in a
/// buffer of `buf_len` bytes, meets: the first of the start index and the
/// last index that is out of bounds.
pub open spec fn bounds_error(position: nat, size: nat, buf_len: nat) -> Option<
    BinarySerdeBufSafeError,
> {
    if position >= buf_len {
        Some(BinarySerdeBufSafeError::OutOfBounds { index: position as usize, buf_len: buf_len as usize })
    } else if size > 1 && position + size - 1 >= buf_len {
        Some(
            BinarySerdeBufSafeError::OutOfBounds {
                index: (position + size - 1) as usize,
                buf_len: buf_len as usize,
            },
        )
    } else {
        None
    }
}

/// The bytes that `bytes` hold once `value` is written over them at `position`.
pub open spec fn written_at<T: BinarySerde>(
    bytes: Seq<u8>,
    position: int,
    value: T,
    endianness: Endianness,
) -> Seq<u8> {
    bytes.subrange(0, position) + value.spec_serialize(endianness) + bytes.subrange(
        position + T::spec_serialized_size(),
        bytes.len() as int,
    )
}

/// What deserializing a `T` from `bytes` at `position` gives.
pub open spec fn read_at<T: BinarySerde>(bytes: Seq<u8>, position: int, endianness: Endianness) -> Result<
    T,
    DeserializeError,
> {
    T::spec_deserialize(
        bytes.subrange(position, position + T::spec_serialized_size()),
        endianness,
    )
}

/// Serializes `value` into `vec`, after the bytes it already holds.
pub fn binary_serialize_into_vec<T: BinarySerde>(value: &T, endianness: Endianness, vec: &mut Vec<u8>)
    requires
        T::spec_serialized_size() <= usize::MAX,
    ensures
        final(vec)@ == old(vec)@ + value.spec_serialize(endianness),
{
    let mut bytes = value.binary_serialize_to_array(endianness);
    vec.append(&mut bytes);
}

/// Writes `value` into `buf` at `position`.
fn serialize_at<T: BinarySerde>(value: &T, buf: &mut [u8], position: usize, endianness: Endianness)
    requires
        position + T::spec_serialized_size() <= old(buf)@.len(),
    ensures
        final(buf)@ == written_at(old(buf)@, position as int, *value, endianness),
{
    let _len = buf.len();
    proof {
        T::lemma_serialized_size();
    }
    let (_left, rest) = buf.split_at_mut(position);
    let (chunk, _right) = rest.split_at_mut(T::SERIALIZED_SIZE);
    value.binary_serialize(chunk, endianness);
}

/// Reads a `T` from `buf` at `position`.
fn deserialize_at<T: BinarySerde>(buf: &[u8], position: usize, endianness: Endianness) -> (r: Result<
    T,
    DeserializeError,
>)
    requires
        position + T::spec_serialized_size() <= buf@.len(),
    ensures
        r == read_at::<T>(buf@, position as int, endianness),
{
    let _len = buf.len();
    proof {
        T::lemma_serialized_size();
    }
    T::binary_deserialize(&buf[position..position + T::SERIALIZED_SIZE], endianness)
}

/// A serializer which serializes values into a vector of bytes.
#[derive(Clone)]
pub struct BinarySerializerToVec {
    buf: Vec<u8>,
    endianness: Endianness,
}

impl BinarySerializerToVec {
    /// The bytes serialized so far.
    pub closed spec fn bytes(&self) -> Seq<u8> {
        self.buf@
    }

    pub closed spec fn byte_order(&self) -> Endianness {
        self.endianness
    }

    /// What one call of `serialize(value)` does: the bytes of `value`, in the
    /// serializer's byte order, follow the bytes serialized so far.
    pub open spec fn serialize_step<T: BinarySerde>(&self, value: T, after: Self) -> bool {
        &&& after.bytes() == self.bytes() + value.spec_serialize(self.byte_order())
        &&& after.byte_order() == self.byte_order()
    }

    /// Creates a serializer with an empty buffer.
    pub fn new(endianness: Endianness) -> (r: Self)
        ensures
            r.bytes() == Seq::<u8>::empty(),
            r.byte_order() == endianness,
    {
        Self { buf: Vec::new(), endianness }
    }

    /// Creates a serializer that serializes after the bytes of `initial_buffer`.
    pub fn new_with_buffer(initial_buffer: Vec<u8>, endianness: Endianness) -> (r: Self)
        ensures
            r.bytes() == initial_buffer@,
            r.byte_order() == endianness,
    {
        Self { buf: initial_buffer, endianness }
    }

    /// Serializes `value` after the bytes serialized so far.
    pub fn serialize<T: BinarySerde>(&mut self, value: &T)
        requires
            T::spec_serialized_size() <= usize::MAX,
        ensures
            old(self).serialize_step(*value, *final(self)),
    {
        binary_serialize_into_vec(value, self.endianness, &mut self.buf)
    }

    /// The serialized bytes.
    pub fn data(&self) -> (r: &[u8])
        ensures
            r@ == self.bytes(),
    {
        self.buf.as_slice()
    }

    /// The underlying buffer.
    pub fn buffer(&self) -> (r: &Vec<u8>)
        ensures
            r@ == self.bytes(),
    {
        &self.buf
    }

    /// The underlying buffer, to change.
    pub fn buffer_mut(&mut self) -> (r: &mut Vec<u8>)
        ensures
            r@ == old(self).bytes(),
            final(self).bytes() == final(r)@,
            final(self).byte_order() == old(self).byte_order(),
    {
        &mut self.buf
    }

    /// Consumes this serializer and returns its buffer.
    pub fn into_buffer(self) -> (r: Vec<u8>)
        ensures
            r@ == self.bytes(),
    {
        self.buf
    }

    pub fn set_endianness(&mut self, new_endianness: Endianness)
        ensures
            final(self).byte_order() == new_endianness,
            final(self).bytes() == old(self).bytes(),
    {
        self.endianness = new_endianness
    }

    pub fn endianness(&self) -> (r: Endianness)
        ensures
            r == self.byte_order(),
    {
        self.endianness
    }
}

/// A new serializer that serializes `a` and then `b` holds the serialization
/// of `a` followed by that of `b`, both in its byte order.
pub proof fn lemma_serialize_one_after_another<A: BinarySerde, B: BinarySerde>(
    fresh: BinarySerializerToVec,
    after_a: BinarySerializerToVec,
    after_b: BinarySerializerToVec,
    a: A,
    b: B,
    endianness: Endianness,
)
    requires
        fresh.bytes() == Seq::<u8>::empty(),
        fresh.byte_order() == endianness,
        fresh.serialize_step(a, after_a),
        after_a.serialize_step(b, after_b),
    ensures
        after_b.bytes() == a.spec_serialize(endianness) + b.spec_serialize(endianness),
        after_b.byte_order() == endianness,
{
    assert(Seq::<u8>::empty() + a.spec_serialize(endianness) =~= a.spec_serialize(endianness));
}

/// A serializer made with an initial buffer keeps it, and serializes after it:
/// once `value` is serialized, its buffer is the initial bytes followed by the
/// serialization of `value`.
pub proof fn lemma_serialize_after_initial_buffer<T: BinarySerde>(
    fresh: BinarySerializerToVec,
    after: BinarySerializerToVec,
    initial: Seq<u8>,
    value: T,
    endianness: Endianness,
)
    requires
        fresh.bytes() == initial,
        fresh.byte_order() == endianness,
        fresh.serialize_step(value, after),
    ensures
        after.bytes() == initial + value.spec_serialize(endianness),
        after.byte_order() == endianness,
{
}

/// A serializer which serializes values into a data stream.
#[derive(Clone)]
pub struct BinarySerializerToStream<W> {
    stream: W,
    endianness: Endianness,
}

impl<W> BinarySerializerToStream<W> {
    pub closed spec fn inner_stream(&self) -> W {
        self.stream
    }

    pub closed spec fn byte_order(&self) -> Endianness {
        self.endianness
    }

    /// Creates a serializer which serializes into `stream`.
    pub fn new(stream: W, endianness: Endianness) -> (r: Self)
        ensures
            r.inner_stream() == stream,
            r.byte_order() == endianness,
    {
        Self { stream, endianness }
    }

    /// Consumes this serializer and returns its stream.
    pub fn into_stream(self) -> (r: W)
        ensures
            r == self.inner_stream(),
    {
        self.stream
    }

    pub fn stream(&self) -> (r: &W)
        ensures
            *r == self.inner_stream(),
    {
        &self.stream
    }

    pub fn stream_mut(&mut self) -> (r: &mut W)
        ensures
            *r == old(self).inner_stream(),
            final(self).inner_stream() == *final(r),
            final(self).byte_order() == old(self).byte_order(),
    {
        &mut self.stream
    }

    pub fn set_endianness(&mut self, new_endianness: Endianness)
        ensures
            final(self).byte_order() == new_endianness,
            final(self).inner_stream() == old(self).inner_stream(),
    {
        self.endianness = new_endianness
    }

    pub fn endianness(&self) -> (r: Endianness)
        ensures
            r == self.byte_order(),
    {
        self.endianness
    }
}

/// A deserializer which deserializes values from a data stream.
#[derive(Clone)]
pub struct BinaryDeserializerFromStream<R> {
    stream: R,
    endianness: Endianness,
}

impl<R> BinaryDeserializerFromStream<R> {
    pub closed spec fn inner_stream(&self) -> R {
        self.stream
    }

    pub closed spec fn byte_order(&self) -> Endianness {
        self.endianness
    }

    /// Creates a deserializer which deserializes from `stream`.
    pub fn new(stream: R, endianness: Endianness) -> (r: Self)
        ensures
            r.inner_stream() == stream,
            r.byte_order() == endianness,
    {
        Self { stream, endianness }
    }

    /// Consumes this deserializer and returns its stream.
    pub fn into_stream(self) -> (r: R)
        ensures
            r == self.inner_stream(),
    {
        self.stream
    }

    pub fn stream(&self) -> (r: &R)
        ensures
            *r == self.inner_stream(),
    {
        &self.stream
    }

    pub fn stream_mut(&mut self) -> (r: &mut R)
        ensures
            *r == old(self).inner_stream(),
            final(self).inner_stream() == *final(r),
            final(self).byte_order() == old(self).byte_order(),
    {
        &mut self.stream
    }

    pub fn set_endianness(&mut self, new_endianness: Endianness)
        ensures
            final(self).byte_order() == new_endianness,
            final(self).inner_stream() == old(self).inner_stream(),
    {
        self.endianness = new_endianness
    }

    pub fn endianness(&self) -> (r: Endianness)
        ensures
            r == self.byte_order(),
    {
        self.endianness
    }
}


/// A deserializer which deserializes values from a buffer, from a position
/// that moves forward by the size of each value read.
#[derive(Clone)]
pub struct BinaryDeserializerFromBuf<'a> {
    buf: &'a [u8],
    endianness: Endianness,
    position: usize,
}

impl<'a> BinaryDeserializerFromBuf<'a> {
    pub closed spec fn bytes(&self) -> Seq<u8> {
        self.buf@
    }

    pub closed spec fn byte_order(&self) -> Endianness {
        self.endianness
    }

    pub closed spec fn pos(&self) -> nat {
        self.position as nat
    }

    /// What one call of `deserialize`, `set_position`, `move_forwards`,
    /// `move_backwards` or `set_endianness` may do to the deserializer: its
    /// bytes stay, and so does its byte order or its position.
    pub open spec fn call_step(&self, after: Self) -> bool {
        &&& after.bytes() == self.bytes()
        &&& (after.byte_order() == self.byte_order() || after.pos() == self.pos())
    }

    /// Whether `states` are the states of a deserializer over a run of calls of
    /// its methods, one after the other.
    pub open spec fn is_call_run(states: Seq<Self>) -> bool
        decreases states.len(),
    {
        states.len() > 1 ==> {
            &&& Self::is_call_run(states.drop_last())
            &&& states[states.len() - 2].call_step(states.last())
        }
    }

    /// Creates a deserializer at the start of `buf`.
    pub fn new(buf: &'a [u8], endianness: Endianness) -> (r: Self)
        ensures
            r.bytes() == buf@,
            r.byte_order() == endianness,
            r.pos() == 0,
    {
        Self { buf, endianness, position: 0 }
    }

    /// Deserializes a `T` at the current position; on success the position
    /// moves past it, on failure it stays.
    pub fn deserialize<T: BinarySerde>(&mut self) -> (r: Result<T, DeserializeError>)
        requires
            old(self).pos() + T::spec_serialized_size() <= old(self).bytes().len(),
        ensures
            old(self).call_step(*final(self)),
            r == read_at::<T>(old(self).bytes(), old(self).pos() as int, old(self).byte_order()),
            final(self).bytes() == old(self).bytes(),
            final(self).byte_order() == old(self).byte_order(),
            final(self).pos() == if r is Ok {
                old(self).pos() + T::spec_serialized_size()
            } else {
                old(self).pos()
            },
    {
        let _len = self.buf.len();
        proof {
            T::lemma_serialized_size();
        }
        let result = deserialize_at::<T>(self.buf, self.position, self.endianness);
        match result {
            Ok(v) => {
                self.position += T::SERIALIZED_SIZE;
                Ok(v)
            },
            Err(e) => Err(e),
        }
    }

    pub fn position(&self) -> (r: usize)
        ensures
            r == self.pos(),
    {
        self.position
    }

    pub fn set_position(&mut self, new_position: usize)
        ensures
            old(self).call_step(*final(self)),
            final(self).pos() == new_position,
            final(self).bytes() == old(self).bytes(),
            final(self).byte_order() == old(self).byte_order(),
    {
        self.position = new_position;
    }

    pub fn move_forwards(&mut self, amount: usize)
        requires
            old(self).pos() + amount <= usize::MAX,
        ensures
            old(self).call_step(*final(self)),
            final(self).pos() == old(self).pos() + amount,
            final(self).bytes() == old(self).bytes(),
            final(self).byte_order() == old(self).byte_order(),
    {
        self.position += amount;
    }

    pub fn move_backwards(&mut self, amount: usize)
        requires
            amount <= old(self).pos(),
        ensures
            old(self).call_step(*final(self)),
            final(self).pos() == old(self).pos() - amount,
            final(self).bytes() == old(self).bytes(),
            final(self).byte_order() == old(self).byte_order(),
    {
        self.position -= amount;
    }

    pub fn set_endianness(&mut self, new_endianness: Endianness)
        ensures
            old(self).call_step(*final(self)),
            final(self).byte_order() == new_endianness,
            final(self).bytes() == old(self).bytes(),
            final(self).pos() == old(self).pos(),
    {
        self.endianness = new_endianness
    }

    pub fn endianness(&self) -> (r: Endianness)
        ensures
            r == self.byte_order(),
    {
        self.endianness
    }

    pub fn buf(&self) -> (r: &'a [u8])
        ensures
            r@ == self.bytes(),
    {
        self.buf
    }
}

/// Over any run of calls of its methods, a deserializer keeps the bytes it
/// was made with: `buf()` gives back the same bytes at every step.
pub proof fn lemma_deserializer_keeps_buffer<'a>(states: Seq<BinaryDeserializerFromBuf<'a>>)
    requires
        BinaryDeserializerFromBuf::is_call_run(states),
    ensures
        forall|i: int| 0 <= i < states.len() ==> #[trigger] states[i].bytes() == states[0].bytes(),
    decreases states.len(),
{
    if states.len() > 1 {
        let shorter = states.drop_last();
        lemma_deserializer_keeps_buffer(shorter);
        assert forall|i: int| 0 <= i < states.len() implies #[trigger] states[i].bytes()
            == states[0].bytes() by {
            if i < states.len() - 1 {
                assert(states[i] == shorter[i]);
            } else {
                assert(states[states.len() - 2] == shorter[states.len() - 2]);
            }
        }
    }
}

/// A serializer and deserializer which writes and reads values in a buffer,
/// at a position that moves forward by the size of each value.
pub struct BinarySerdeBuf<'a> {
    buf: &'a mut [u8],
    endianness: Endianness,
    position: usize,
}

impl<'a> BinarySerdeBuf<'a> {
    /// The buffer that this borrows.
    pub closed spec fn slice(&self) -> &'a mut [u8] {
        self.buf
    }

    /// The endianness by which values are serialized.
    pub closed spec fn byte_order(&self) -> Endianness {
        self.endianness
    }

    /// The position of the next value.
    pub closed spec fn pos(&self) -> nat {
        self.position as nat
    }

    /// Ends the use of the buffer: it keeps what was written into it.
    pub fn finish(self)
        ensures
            final(self.slice())@ == self.slice()@,
    {
    }

    /// Creates a serializer/deserializer at the start of `buf`.
    pub fn new(buf: &'a mut [u8], endianness: Endianness) -> (r: Self)
        ensures
            r.slice()@ == old(buf)@,
            final(r.slice())@ == final(buf)@,
            r.byte_order() == endianness,
            r.pos() == 0,
    {
        Self { buf, endianness, position: 0 }
    }

    /// Serializes `value` at the current position and moves past it.
    pub fn serialize<T: BinarySerde>(&mut self, value: &T)
        requires
            old(self).pos() + T::spec_serialized_size() <= old(self).slice()@.len(),
        ensures
            final(self).slice()@ == written_at(
                old(self).slice()@,
                old(self).pos() as int,
                *value,
                old(self).byte_order(),
            ),
            final(final(self).slice())@ == final(old(self).slice())@,
            final(self).byte_order() == old(self).byte_order(),
            final(self).pos() == old(self).pos() + T::spec_serialized_size(),
    {
        let _len = self.buf.len();
        proof {
            T::lemma_serialized_size();
        }
        serialize_at(value, self.buf, self.position, self.endianness);
        self.position += T::SERIALIZED_SIZE;
    }

    /// Deserializes a `T` at the current position; on success the position
    /// moves past it, on failure it stays.
    pub fn deserialize<T: BinarySerde>(&mut self) -> (r: Result<T, DeserializeError>)
        requires
            old(self).pos() + T::spec_serialized_size() <= old(self).slice()@.len(),
        ensures
            r == read_at::<T>(old(self).slice()@, old(self).pos() as int, old(self).byte_order()),
            final(self).slice()@ == old(self).slice()@,
            final(final(self).slice())@ == final(old(self).slice())@,
            final(self).byte_order() == old(self).byte_order(),
            final(self).pos() == if r is Ok {
                old(self).pos() + T::spec_serialized_size()
            } else {
                old(self).pos()
            },
    {
        let _len = self.buf.len();
        proof {
            T::lemma_serialized_size();
        }
        let result = deserialize_at::<T>(self.buf, self.position, self.endianness);
        match result {
            Ok(v) => {
                self.position += T::SERIALIZED_SIZE;
                Ok(v)
            },
            Err(e) => Err(e),
        }
    }

    pub fn position(&self) -> (r: usize)
        ensures
            r == self.pos(),
    {
        self.position
    }

    pub fn set_position(&mut self, new_position: usize)
        ensures
            final(self).pos() == new_position,
            final(self).slice()@ == old(self).slice()@,
            final(final(self).slice())@ == final(old(self).slice())@,
            final(self).byte_order() == old(self).byte_order(),
    {
        self.position = new_position;
    }

    pub fn move_forwards(&mut self, amount: usize)
        requires
            old(self).pos() + amount <= usize::MAX,
        ensures
            final(self).pos() == old(self).pos() + amount,
            final(self).slice()@ == old(self).slice()@,
            final(final(self).slice())@ == final(old(self).slice())@,
            final(self).byte_order() == old(self).byte_order(),
    {
        self.position += amount;
    }

    pub fn move_backwards(&mut self, amount: usize)
        requires
            amount <= old(self).pos(),
        ensures
            final(self).pos() == old(self).pos() - amount,
            final(self).slice()@ == old(self).slice()@,
            final(final(self).slice())@ == final(old(self).slice())@,
            final(self).byte_order() == old(self).byte_order(),
    {
        self.position -= amount;
    }

    pub fn set_endianness(&mut self, new_endianness: Endianness)
        ensures
            final(self).byte_order() == new_endianness,
            final(self).slice()@ == old(self).slice()@,
            final(final(self).slice())@ == final(old(self).slice())@,
            final(self).pos() == old(self).pos(),
    {
        self.endianness = new_endianness
    }

    pub fn endianness(&self) -> (r: Endianness)
        ensures
            r == self.byte_order(),
    {
        self.endianness
    }

    /// The underlying buffer.
    pub fn buf(&mut self) -> (r: &mut [u8])
        ensures
            r@ == old(self).slice()@,
            final(self).slice()@ == final(r)@,
            final(final(self).slice())@ == final(old(self).slice())@,
            final(self).byte_order() == old(self).byte_order(),
            final(self).pos() == old(self).pos(),
    {
        self.buf
    }
}


/// Checks that `index` is within a buffer of `buf_len` bytes.
fn check_index(index: usize, buf_len: usize) -> (r: Result<(), BinarySerdeBufSafeError>)
    ensures
        index < buf_len ==> r is Ok,
        index >= buf_len ==> r == Err::<(), BinarySerdeBufSafeError>(
            BinarySerdeBufSafeError::OutOfBounds { index, buf_len },
        ),
{
    if index < buf_len {
        Ok(())
    } else {
        Err(BinarySerdeBufSafeError::OutOfBounds { index, buf_len })
    }
}

/// Checks that the `size` bytes at `position` lie within a buffer of `buf_len`
/// bytes: first the start index, then, where it differs, the last index.
fn check_range(position: usize, size: usize, buf_len: usize) -> (r: Result<(), BinarySerdeBufSafeError>)
    requires
        position < buf_len && size > 1 ==> position + size <= usize::MAX,
    ensures
        position >= buf_len ==> r == Err::<(), BinarySerdeBufSafeError>(
            BinarySerdeBufSafeError::OutOfBounds { index: position, buf_len },
        ),
        position < buf_len && position + size > buf_len ==> r == Err::<(), BinarySerdeBufSafeError>(
            BinarySerdeBufSafeError::OutOfBounds { index: (position + size - 1) as usize, buf_len },
        ),
        match bounds_error(position as nat, size as nat, buf_len as nat) {
            Some(e) => r == Err::<(), BinarySerdeBufSafeError>(e),
            None => r is Ok,
        },
        r is Ok <==> position < buf_len && position + size <= buf_len,
{
    check_index(position, buf_len)?;
    if size > 1 {
        check_index(position + size - 1, buf_len)?;
    }
    Ok(())
}

/// A serializer and deserializer which writes and reads values in a buffer,
/// checking the bounds of the buffer first so that it never panics.
pub struct BinarySerdeBufSafe<'a> {
    buf: &'a mut [u8],
    endianness: Endianness,
    position: usize,
}

impl<'a> BinarySerdeBufSafe<'a> {
    /// The buffer that this borrows.
    pub closed spec fn slice(&self) -> &'a mut [u8] {
        self.buf
    }

    /// The endianness by which values are serialized.
    pub closed spec fn byte_order(&self) -> Endianness {
        self.endianness
    }

    /// The position of the next value.
    pub closed spec fn pos(&self) -> nat {
        self.position as nat
    }

    /// Ends the use of the buffer: it keeps what was written into it.
    pub fn finish(self)
        ensures
            final(self.slice())@ == self.slice()@,
    {
    }

    /// Creates a serializer/deserializer at the start of `buf`.
    pub fn new(buf: &'a mut [u8], endianness: Endianness) -> (r: Self)
        ensures
            r.slice()@ == old(buf)@,
            final(r.slice())@ == final(buf)@,
            r.byte_order() == endianness,
            r.pos() == 0,
    {
        Self { buf, endianness, position: 0 }
    }

    /// Checks that `index` is within the buffer.
    fn check_index(&self, index: usize) -> (r: Result<(), BinarySerdeBufSafeError>)
        ensures
            index < self.slice()@.len() ==> r is Ok,
            index >= self.slice()@.len() ==> r == Err::<(), BinarySerdeBufSafeError>(
                BinarySerdeBufSafeError::OutOfBounds { index, buf_len: self.slice()@.len() as usize },
            ),
    {
        check_index(index, self.buf.len())
    }

    /// Serializes `value` at the current position and moves past it, or, where
    /// the value does not fit in the buffer from there, changes nothing and
    /// returns the out-of-bounds index.
    pub fn serialize<T: BinarySerde>(&mut self, value: &T) -> (r: Result<(), BinarySerdeBufSafeError>)
        requires
            T::spec_serialized_size() <= usize::MAX,
            old(self).pos() < old(self).slice()@.len() && T::spec_serialized_size() > 1
                ==> old(self).pos() + T::spec_serialized_size() <= usize::MAX,
        ensures
            old(self).pos() >= old(self).slice()@.len() ==> r == Err::<(), BinarySerdeBufSafeError>(
                BinarySerdeBufSafeError::OutOfBounds { index: old(self).pos() as usize, buf_len: old(self).slice()@.len() as usize },
            ),
            old(self).pos() < old(self).slice()@.len() && old(self).pos() + T::spec_serialized_size() > old(self).slice()@.len() ==> r
                == Err::<(), BinarySerdeBufSafeError>(
                BinarySerdeBufSafeError::OutOfBounds {
                    index: (old(self).pos() + T::spec_serialized_size() - 1) as usize,
                    buf_len: old(self).slice()@.len() as usize,
                },
            ),
            final(final(self).slice())@ == final(old(self).slice())@,
            final(self).byte_order() == old(self).byte_order(),
            match bounds_error(
                old(self).pos() as nat,
                T::spec_serialized_size(),
                old(self).slice()@.len(),
            ) {
                Some(e) => {
                    &&& r == Err::<(), BinarySerdeBufSafeError>(e)
                    &&& final(self).slice()@ == old(self).slice()@
                    &&& final(self).pos() == old(self).pos()
                },
                None => {
                    &&& r is Ok
                    &&& final(self).slice()@ == written_at(
                        old(self).slice()@,
                        old(self).pos() as int,
                        *value,
                        old(self).byte_order(),
                    )
                    &&& final(self).pos() == old(self).pos() + T::spec_serialized_size()
                },
            },
            r is Ok <==> old(self).pos() < old(self).slice()@.len() && old(self).pos()
                + T::spec_serialized_size() <= old(self).slice()@.len(),
    {
        proof {
            T::lemma_serialized_size();
        }
        let size = T::SERIALIZED_SIZE;
        check_range(self.position, size, self.buf.len())?;
        serialize_at(value, self.buf, self.position, self.endianness);
        self.position += size;
        Ok(())
    }

    /// Deserializes a `T` at the current position and moves past it; where the
    /// value does not lie within the buffer, or its bytes do not deserialize,
    /// the position stays and the error is returned.
    pub fn deserialize<T: BinarySerde>(&mut self) -> (r: Result<T, BinarySerdeBufSafeError>)
        requires
            T::spec_serialized_size() <= usize::MAX,
            old(self).pos() < old(self).slice()@.len() && T::spec_serialized_size() > 1
                ==> old(self).pos() + T::spec_serialized_size() <= usize::MAX,
        ensures
            old(self).pos() >= old(self).slice()@.len() ==> r == Err::<T, BinarySerdeBufSafeError>(
                BinarySerdeBufSafeError::OutOfBounds {
                    index: old(self).pos() as usize,
                    buf_len: old(self).slice()@.len() as usize,
                },
            ),
            old(self).pos() < old(self).slice()@.len() && old(self).pos() + T::spec_serialized_size()
                > old(self).slice()@.len() ==> r == Err::<T, BinarySerdeBufSafeError>(
                BinarySerdeBufSafeError::OutOfBounds {
                    index: (old(self).pos() + T::spec_serialized_size() - 1) as usize,
                    buf_len: old(self).slice()@.len() as usize,
                },
            ),
            final(self).slice()@ == old(self).slice()@,
            final(final(self).slice())@ == final(old(self).slice())@,
            final(self).byte_order() == old(self).byte_order(),
            match bounds_error(
                old(self).pos() as nat,
                T::spec_serialized_size(),
                old(self).slice()@.len(),
            ) {
                Some(e) => r == Err::<T, BinarySerdeBufSafeError>(e),
                None => match read_at::<T>(
                    old(self).slice()@,
                    old(self).pos() as int,
                    old(self).byte_order(),
                ) {
                    Ok(v) => r == Ok::<T, BinarySerdeBufSafeError>(v),
                    Err(e) => r == Err::<T, BinarySerdeBufSafeError>(
                        BinarySerdeBufSafeError::DeserializeError(e),
                    ),
                },
            },
            final(self).pos() == if r is Ok {
                old(self).pos() + T::spec_serialized_size()
            } else {
                old(self).pos()
            },
    {
        proof {
            T::lemma_serialized_size();
        }
        let size = T::SERIALIZED_SIZE;
        check_range(self.position, size, self.buf.len())?;
        match deserialize_at::<T>(self.buf, self.position, self.endianness) {
            Ok(v) => {
                self.position += size;
                Ok(v)
            },
            Err(e) => Err(BinarySerdeBufSafeError::from(e)),
        }
    }

    pub fn position(&self) -> (r: usize)
        ensures
            r == self.pos(),
    {
        self.position
    }

    pub fn set_position(&mut self, new_position: usize)
        ensures
            final(self).pos() == new_position,
            final(self).slice()@ == old(self).slice()@,
            final(final(self).slice())@ == final(old(self).slice())@,
            final(self).byte_order() == old(self).byte_order(),
    {
        self.position = new_position;
    }

    pub fn move_forwards(&mut self, amount: usize)
        requires
            old(self).pos() + amount <= usize::MAX,
        ensures
            final(self).pos() == old(self).pos() + amount,
            final(self).slice()@ == old(self).slice()@,
            final(final(self).slice())@ == final(old(self).slice())@,
            final(self).byte_order() == old(self).byte_order(),
    {
        self.position += amount;
    }

    pub fn move_backwards(&mut self, amount: usize)
        requires
            amount <= old(self).pos(),
        ensures
            final(self).pos() == old(self).pos() - amount,
            final(self).slice()@ == old(self).slice()@,
            final(final(self).slice())@ == final(old(self).slice())@,
            final(self).byte_order() == old(self).byte_order(),
    {
        self.position -= amount;
    }

    pub fn set_endianness(&mut self, new_endianness: Endianness)
        ensures
            final(self).byte_order() == new_endianness,
            final(self).slice()@ == old(self).slice()@,
            final(final(self).slice())@ == final(old(self).slice())@,
            final(self).pos() == old(self).pos(),
    {
        self.endianness = new_endianness
    }

    pub fn endianness(&self) -> (r: Endianness)
        ensures
            r == self.byte_order(),
    {
        self.endianness
    }

    /// The underlying buffer.
    pub fn buf(&mut self) -> (r: &mut [u8])
        ensures
            r@ == old(self).slice()@,
            final(self).slice()@ == final(r)@,
            final(final(self).slice())@ == final(old(self).slice())@,
            final(self).byte_order() == old(self).byte_order(),
            final(self).pos() == old(self).pos(),
    {
        self.buf
    }
}

/// A deserializer which deserializes values from a buffer, checking the bounds
/// of the buffer first so that it never panics.
#[derive(Clone)]
pub struct BinaryDeserializerFromBufSafe<'a> {
    buf: &'a [u8],
    endianness: Endianness,
    position: usize,
}

impl<'a> BinaryDeserializerFromBufSafe<'a> {
    pub closed spec fn bytes(&self) -> Seq<u8> {
        self.buf@
    }

    pub closed spec fn byte_order(&self) -> Endianness {
        self.endianness
    }

    pub closed spec fn pos(&self) -> nat {
        self.position as nat
    }

    /// Creates a deserializer at the start of `buf`.
    pub fn new(buf: &'a [u8], endianness: Endianness) -> (r: Self)
        ensures
            r.bytes() == buf@,
            r.byte_order() == endianness,
            r.pos() == 0,
    {
        Self { buf, endianness, position: 0 }
    }

    /// Checks that `index` is within the buffer.
    fn check_index(&self, index: usize) -> (r: Result<(), BinarySerdeBufSafeError>)
        ensures
            index < self.bytes().len() ==> r is Ok,
            index >= self.bytes().len() ==> r == Err::<(), BinarySerdeBufSafeError>(
                BinarySerdeBufSafeError::OutOfBounds { index, buf_len: self.bytes().len() as usize },
            ),
    {
        check_index(index, self.buf.len())
    }

    /// Deserializes a `T` at the current position and moves past it; where the
    /// value does not lie within the buffer, or its bytes do not deserialize,
    /// the position stays and the error is returned.
    pub fn deserialize<T: BinarySerde>(&mut self) -> (r: Result<T, BinarySerdeBufSafeError>)
        requires
            T::spec_serialized_size() <= usize::MAX,
            old(self).pos() < old(self).bytes().len() && T::spec_serialized_size() > 1
                ==> old(self).pos() + T::spec_serialized_size() <= usize::MAX,
        ensures
            old(self).pos() >= old(self).bytes().len() ==> r == Err::<T, BinarySerdeBufSafeError>(
                BinarySerdeBufSafeError::OutOfBounds {
                    index: old(self).pos() as usize,
                    buf_len: old(self).bytes().len() as usize,
                },
            ),
            old(self).pos() < old(self).bytes().len() && old(self).pos() + T::spec_serialized_size()
                > old(self).bytes().len() ==> r == Err::<T, BinarySerdeBufSafeError>(
                BinarySerdeBufSafeError::OutOfBounds {
                    index: (old(self).pos() + T::spec_serialized_size() - 1) as usize,
                    buf_len: old(self).bytes().len() as usize,
                },
            ),
            final(self).bytes() == old(self).bytes(),
            final(self).byte_order() == old(self).byte_order(),
            match bounds_error(old(self).pos(), T::spec_serialized_size(), old(self).bytes().len()) {
                Some(e) => r == Err::<T, BinarySerdeBufSafeError>(e),
                None => match read_at::<T>(
                    old(self).bytes(),
                    old(self).pos() as int,
                    old(self).byte_order(),
                ) {
                    Ok(v) => r == Ok::<T, BinarySerdeBufSafeError>(v),
                    Err(e) => r == Err::<T, BinarySerdeBufSafeError>(
                        BinarySerdeBufSafeError::DeserializeError(e),
                    ),
                },
            },
            final(self).pos() == if r is Ok {
                old(self).pos() + T::spec_serialized_size()
            } else {
                old(self).pos()
            },
    {
        proof {
            T::lemma_serialized_size();
        }
        let size = T::SERIALIZED_SIZE;
        check_range(self.position, size, self.buf.len())?;
        match deserialize_at::<T>(self.buf, self.position, self.endianness) {
            Ok(v) => {
                self.position += size;
                Ok(v)
            },
            Err(e) => Err(BinarySerdeBufSafeError::from(e)),
        }
    }

    pub fn position(&self) -> (r: usize)
        ensures
            r == self.pos(),
    {
        self.position
    }

    pub fn set_position(&mut self, new_position: usize)
        ensures
            final(self).pos() == new_position,
            final(self).bytes() == old(self).bytes(),
            final(self).byte_order() == old(self).byte_order(),
    {
        self.position = new_position;
    }

    pub fn move_forwards(&mut self, amount: usize)
        requires
            old(self).pos() + amount <= usize::MAX,
        ensures
            final(self).pos() == old(self).pos() + amount,
            final(self).bytes() == old(self).bytes(),
            final(self).byte_order() == old(self).byte_order(),
    {
        self.position += amount;
    }

    pub fn move_backwards(&mut self, amount: usize)
        requires
            amount <= old(self).pos(),
        ensures
            final(self).pos() == old(self).pos() - amount,
            final(self).bytes() == old(self).bytes(),
            final(self).byte_order() == old(self).byte_order(),
    {
        self.position -= amount;
    }

    pub fn set_endianness(&mut self, new_endianness: Endianness)
        ensures
            final(self).byte_order() == new_endianness,
            final(self).bytes() == old(self).bytes(),
            final(self).pos() == old(self).pos(),
    {
        self.endianness = new_endianness
    }

    pub fn endianness(&self) -> (r: Endianness)
        ensures
            r == self.byte_order(),
    {
        self.endianness
    }

    pub fn buf(&self) -> (r: &'a [u8])
        ensures
            r@ == self.bytes(),
    {
        self.buf
    }
}

} // verus!
