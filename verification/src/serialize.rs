use vstd::prelude::*;
use core::marker::PhantomData;
use crate::endianness::Endianness;
use crate::error::DeserializeError;
use crate::integer::{
    uint_bytes, uint_value, int_bytes, int_value, write_uint, read_uint, write_int, read_int,
    lemma_pow256_values, lemma_uint_roundtrip, lemma_int_roundtrip, lemma_uint_bytes_of_value,
    lemma_int_value_range,
};

verus! {

/// Serializing and deserializing a type into a packed binary format.
pub trait BinarySerde: Sized {
    /// The size of this type when serialized.
    const SERIALIZED_SIZE: usize;

    /// The size of this type when serialized, as a number that cannot wrap.
    spec fn spec_serialized_size() -> nat;

    /// `SERIALIZED_SIZE` is the serialized size wherever that fits in a `usize`.
    proof fn lemma_serialized_size()
        ensures
            Self::spec_serialized_size() <= usize::MAX ==> Self::SERIALIZED_SIZE
                == Self::spec_serialized_size(),
    ;

    /// The bytes that `self` serializes to.
    spec fn spec_serialize(&self, endianness: Endianness) -> Seq<u8>;

    /// What deserializing `bytes` gives.
    spec fn spec_deserialize(bytes: Seq<u8>, endianness: Endianness) -> Result<
        Self,
        DeserializeError,
    >;

    /// Every value serializes to exactly its serialized size in bytes.
    proof fn lemma_serialized_len(&self, endianness: Endianness)
        ensures
            self.spec_serialize(endianness).len() == Self::spec_serialized_size(),
    ;

    /// Serializes this value into `buf`, whose length must be the serialized size.
    fn binary_serialize(&self, buf: &mut [u8], endianness: Endianness)
        requires
            old(buf)@.len() == Self::spec_serialized_size(),
        ensures
            final(buf)@ == self.spec_serialize(endianness),
    ;

    /// Serializes this value into a new buffer of `SERIALIZED_SIZE` bytes.
    fn binary_serialize_to_array(&self, endianness: Endianness) -> (r: Vec<u8>)
        requires
            Self::spec_serialized_size() <= usize::MAX,
        ensures
            r@ == self.spec_serialize(endianness),
            r@.len() == Self::SERIALIZED_SIZE,
    {
        proof {
            Self::lemma_serialized_size();
            self.lemma_serialized_len(endianness);
        }
        let mut array: Vec<u8> = vec![0u8; Self::SERIALIZED_SIZE];
        self.binary_serialize(array.as_mut_slice(), endianness);
        array
    }

    /// Deserializes `buf`, whose length must be the serialized size.
    ///
    /// This fails only where the bytes hold a value that matches no variant of an enum.
    fn binary_deserialize(buf: &[u8], endianness: Endianness) -> (r: Result<Self, DeserializeError>)
        requires
            buf@.len() == Self::spec_serialized_size(),
        ensures
            r == Self::spec_deserialize(buf@, endianness),
    ;
}

/// A type for which deserialization never fails: every string of bytes of the
/// serialized size holds a value.
pub trait BinarySerdeInfallible: BinarySerde {
    /// Deserializing any bytes of the serialized size succeeds.
    proof fn lemma_deserialize_ok(bytes: Seq<u8>, endianness: Endianness)
        requires
            bytes.len() == Self::spec_serialized_size(),
        ensures
            Self::spec_deserialize(bytes, endianness) is Ok,
    ;
}

/// A type whose values all come back unchanged from their serialization.
pub trait BinarySerdeRoundtrip: BinarySerde {
    /// Deserializing the bytes that a value serializes to gives the value back.
    proof fn lemma_roundtrip(&self, endianness: Endianness)
        ensures
            Self::spec_deserialize(self.spec_serialize(endianness), endianness) == Ok::<
                Self,
                DeserializeError,
            >(*self),
    ;
}

impl BinarySerde for u8 {
    const SERIALIZED_SIZE: usize = 1;

    open spec fn spec_serialized_size() -> nat {
        1
    }

    proof fn lemma_serialized_size() {
        assert(Self::SERIALIZED_SIZE == 1);
    }

    open spec fn spec_serialize(&self, endianness: Endianness) -> Seq<u8> {
        seq![*self]
    }

    open spec fn spec_deserialize(bytes: Seq<u8>, endianness: Endianness) -> Result<
        Self,
        DeserializeError,
    > {
        Ok(bytes[0])
    }

    proof fn lemma_serialized_len(&self, endianness: Endianness) {
    }

    fn binary_serialize(&self, buf: &mut [u8], _endianness: Endianness) {
        buf[0] = *self;
        assert(buf@ =~= seq![*self]);
    }

    fn binary_serialize_to_array(&self, _endianness: Endianness) -> (r: Vec<u8>) {
        let mut r: Vec<u8> = Vec::new();
        r.push(*self);
        assert(r@ =~= seq![*self]);
        r
    }

    fn binary_deserialize(buf: &[u8], _endianness: Endianness) -> (r: Result<Self, DeserializeError>) {
        Ok(buf[0])
    }
}

impl BinarySerdeRoundtrip for u8 {
    proof fn lemma_roundtrip(&self, endianness: Endianness) {
    }
}

impl BinarySerdeInfallible for u8 {
    proof fn lemma_deserialize_ok(bytes: Seq<u8>, endianness: Endianness) {
    }
}

/// The byte that holds the `i8` value `v` in two's complement.
pub open spec fn i8_byte(v: i8) -> u8 {
    ((v as int) % 256) as u8
}

/// The `i8` value that the byte `b` holds in two's complement.
pub open spec fn i8_of_byte(b: u8) -> i8 {
    if b >= 128 {
        (b - 256) as i8
    } else {
        b as i8
    }
}

impl BinarySerde for i8 {
    const SERIALIZED_SIZE: usize = 1;

    open spec fn spec_serialized_size() -> nat {
        1
    }

    proof fn lemma_serialized_size() {
        assert(Self::SERIALIZED_SIZE == 1);
    }

    open spec fn spec_serialize(&self, endianness: Endianness) -> Seq<u8> {
        seq![i8_byte(*self)]
    }

    open spec fn spec_deserialize(bytes: Seq<u8>, endianness: Endianness) -> Result<
        Self,
        DeserializeError,
    > {
        Ok(i8_of_byte(bytes[0]))
    }

    proof fn lemma_serialized_len(&self, endianness: Endianness) {
    }

    fn binary_serialize(&self, buf: &mut [u8], _endianness: Endianness) {
        let b: u8 = if *self < 0 {
            (*self as i16 + 256) as u8
        } else {
            *self as u8
        };
        buf[0] = b;
        assert(buf@ =~= seq![i8_byte(*self)]);
    }

    fn binary_deserialize(buf: &[u8], _endianness: Endianness) -> (r: Result<Self, DeserializeError>) {
        let b = buf[0];
        if b >= 128 {
            Ok((b as i16 - 256) as i8)
        } else {
            Ok(b as i8)
        }
    }
}

impl BinarySerdeRoundtrip for i8 {
    proof fn lemma_roundtrip(&self, endianness: Endianness) {
    }
}

impl BinarySerdeInfallible for i8 {
    proof fn lemma_deserialize_ok(bytes: Seq<u8>, endianness: Endianness) {
    }
}

impl BinarySerde for bool {
    const SERIALIZED_SIZE: usize = 1;

    open spec fn spec_serialized_size() -> nat {
        1
    }

    proof fn lemma_serialized_size() {
        assert(Self::SERIALIZED_SIZE == 1);
    }

    open spec fn spec_serialize(&self, endianness: Endianness) -> Seq<u8> {
        seq![if *self { 1u8 } else { 0u8 }]
    }

    /// Any byte other than zero is `true`.
    open spec fn spec_deserialize(bytes: Seq<u8>, endianness: Endianness) -> Result<
        Self,
        DeserializeError,
    > {
        Ok(bytes[0] != 0)
    }

    proof fn lemma_serialized_len(&self, endianness: Endianness) {
    }

    fn binary_serialize(&self, buf: &mut [u8], _endianness: Endianness) {
        buf[0] = if *self { 1 } else { 0 };
        assert(buf@ =~= seq![if *self { 1u8 } else { 0u8 }]);
    }

    fn binary_deserialize(buf: &[u8], _endianness: Endianness) -> (r: Result<Self, DeserializeError>)
        ensures
            r == Ok::<bool, DeserializeError>(buf@[0] != 0),
    {
        Ok(buf[0] != 0)
    }
}

impl BinarySerdeRoundtrip for bool {
    proof fn lemma_roundtrip(&self, endianness: Endianness) {
    }
}

impl BinarySerdeInfallible for bool {
    proof fn lemma_deserialize_ok(bytes: Seq<u8>, endianness: Endianness) {
    }
}

impl<T> BinarySerde for PhantomData<T> {
    const SERIALIZED_SIZE: usize = 0;

    open spec fn spec_serialized_size() -> nat {
        0
    }

    proof fn lemma_serialized_size() {
        assert(Self::SERIALIZED_SIZE == 0);
    }

    open spec fn spec_serialize(&self, endianness: Endianness) -> Seq<u8> {
        Seq::empty()
    }

    open spec fn spec_deserialize(bytes: Seq<u8>, endianness: Endianness) -> Result<
        Self,
        DeserializeError,
    > {
        Ok(PhantomData)
    }

    proof fn lemma_serialized_len(&self, endianness: Endianness) {
    }

    fn binary_serialize(&self, buf: &mut [u8], _endianness: Endianness) {
        assert(buf@ =~= Seq::<u8>::empty());
    }

    fn binary_serialize_to_array(&self, _endianness: Endianness) -> (r: Vec<u8>) {
        Vec::new()
    }

    fn binary_deserialize(_buf: &[u8], _endianness: Endianness) -> (r: Result<Self, DeserializeError>) {
        Ok(PhantomData)
    }
}

impl<T> BinarySerdeRoundtrip for PhantomData<T> {
    proof fn lemma_roundtrip(&self, endianness: Endianness) {
    }
}

impl<T> BinarySerdeInfallible for PhantomData<T> {
    proof fn lemma_deserialize_ok(bytes: Seq<u8>, endianness: Endianness) {
    }
}

impl BinarySerde for () {
    const SERIALIZED_SIZE: usize = 0;

    open spec fn spec_serialized_size() -> nat {
        0
    }

    proof fn lemma_serialized_size() {
        assert(Self::SERIALIZED_SIZE == 0);
    }

    open spec fn spec_serialize(&self, endianness: Endianness) -> Seq<u8> {
        Seq::empty()
    }

    open spec fn spec_deserialize(bytes: Seq<u8>, endianness: Endianness) -> Result<
        Self,
        DeserializeError,
    > {
        Ok(())
    }

    proof fn lemma_serialized_len(&self, endianness: Endianness) {
    }

    fn binary_serialize(&self, buf: &mut [u8], _endianness: Endianness) {
        assert(buf@ =~= Seq::<u8>::empty());
    }

    fn binary_serialize_to_array(&self, _endianness: Endianness) -> (r: Vec<u8>) {
        Vec::new()
    }

    fn binary_deserialize(_buf: &[u8], _endianness: Endianness) -> (r: Result<Self, DeserializeError>) {
        Ok(())
    }
}

impl BinarySerdeRoundtrip for () {
    proof fn lemma_roundtrip(&self, endianness: Endianness) {
    }
}

impl BinarySerdeInfallible for () {
    proof fn lemma_deserialize_ok(bytes: Seq<u8>, endianness: Endianness) {
    }
}

/// Padding in the middle of a serializable struct: serializing writes
/// `PADDING_VALUE` `PADDING_LENGTH` times, and deserializing reads nothing.
#[derive(Debug, Clone, Copy, Hash)]
pub struct BinarySerdePadding<const PADDING_LENGTH: usize, const PADDING_VALUE: u8>;

impl<const PADDING_LENGTH: usize, const PADDING_VALUE: u8> BinarySerde for BinarySerdePadding<
    PADDING_LENGTH,
    PADDING_VALUE,
> {
    const SERIALIZED_SIZE: usize = PADDING_LENGTH;

    open spec fn spec_serialized_size() -> nat {
        PADDING_LENGTH as nat
    }

    proof fn lemma_serialized_size() {
        assert(Self::SERIALIZED_SIZE == PADDING_LENGTH);
    }

    open spec fn spec_serialize(&self, endianness: Endianness) -> Seq<u8> {
        Seq::new(PADDING_LENGTH as nat, |i: int| PADDING_VALUE)
    }

    /// Whatever the bytes hold, deserializing padding succeeds.
    open spec fn spec_deserialize(bytes: Seq<u8>, endianness: Endianness) -> Result<
        Self,
        DeserializeError,
    > {
        Ok(BinarySerdePadding)
    }

    proof fn lemma_serialized_len(&self, endianness: Endianness) {
    }

    fn binary_serialize(&self, buf: &mut [u8], _endianness: Endianness) {
        let mut i: usize = 0;
        while i < PADDING_LENGTH
            invariant
                i <= PADDING_LENGTH,
                buf@.len() == PADDING_LENGTH,
                forall|k: int| 0 <= k < i ==> buf@[k] == PADDING_VALUE,
            decreases PADDING_LENGTH - i,
        {
            buf[i] = PADDING_VALUE;
            i = i + 1;
        }
        assert(buf@ =~= Seq::new(PADDING_LENGTH as nat, |i: int| PADDING_VALUE));
    }

    fn binary_deserialize(_buf: &[u8], _endianness: Endianness) -> (r: Result<Self, DeserializeError>) {
        Ok(BinarySerdePadding)
    }
}

impl<const PADDING_LENGTH: usize, const PADDING_VALUE: u8> BinarySerdeRoundtrip for BinarySerdePadding<
    PADDING_LENGTH,
    PADDING_VALUE,
> {
    proof fn lemma_roundtrip(&self, endianness: Endianness) {
    }
}

impl<const PADDING_LENGTH: usize, const PADDING_VALUE: u8> BinarySerdeInfallible for BinarySerdePadding<
    PADDING_LENGTH,
    PADDING_VALUE,
> {
    proof fn lemma_deserialize_ok(bytes: Seq<u8>, endianness: Endianness) {
    }
}

impl BinarySerde for u16 {
    const SERIALIZED_SIZE: usize = 2;

    open spec fn spec_serialized_size() -> nat {
        2
    }

    proof fn lemma_serialized_size() {
        assert(Self::SERIALIZED_SIZE == 2);
    }

    open spec fn spec_serialize(&self, endianness: Endianness) -> Seq<u8> {
        uint_bytes(*self as nat, 2, endianness)
    }

    open spec fn spec_deserialize(bytes: Seq<u8>, endianness: Endianness) -> Result<
        Self,
        DeserializeError,
    > {
        Ok(uint_value(bytes, endianness) as u16)
    }

    proof fn lemma_serialized_len(&self, endianness: Endianness) {
        lemma_pow256_values();
        lemma_uint_roundtrip(*self as nat, 2, endianness);
    }

    fn binary_serialize(&self, buf: &mut [u8], endianness: Endianness) {
        write_uint(*self as u128, buf, endianness);
    }

    fn binary_deserialize(buf: &[u8], endianness: Endianness) -> (r: Result<Self, DeserializeError>) {
        proof {
            lemma_pow256_values();
            lemma_uint_bytes_of_value(buf@, endianness);
        }
        Ok(read_uint(buf, endianness) as u16)
    }
}

impl BinarySerdeRoundtrip for u16 {
    proof fn lemma_roundtrip(&self, endianness: Endianness) {
        lemma_pow256_values();
        lemma_uint_roundtrip(*self as nat, 2, endianness);
    }
}

impl BinarySerdeInfallible for u16 {
    proof fn lemma_deserialize_ok(bytes: Seq<u8>, endianness: Endianness) {
    }
}

impl BinarySerde for u32 {
    const SERIALIZED_SIZE: usize = 4;

    open spec fn spec_serialized_size() -> nat {
        4
    }

    proof fn lemma_serialized_size() {
        assert(Self::SERIALIZED_SIZE == 4);
    }

    open spec fn spec_serialize(&self, endianness: Endianness) -> Seq<u8> {
        uint_bytes(*self as nat, 4, endianness)
    }

    open spec fn spec_deserialize(bytes: Seq<u8>, endianness: Endianness) -> Result<
        Self,
        DeserializeError,
    > {
        Ok(uint_value(bytes, endianness) as u32)
    }

    proof fn lemma_serialized_len(&self, endianness: Endianness) {
        lemma_pow256_values();
        lemma_uint_roundtrip(*self as nat, 4, endianness);
    }

    fn binary_serialize(&self, buf: &mut [u8], endianness: Endianness) {
        write_uint(*self as u128, buf, endianness);
    }

    fn binary_deserialize(buf: &[u8], endianness: Endianness) -> (r: Result<Self, DeserializeError>) {
        proof {
            lemma_pow256_values();
            lemma_uint_bytes_of_value(buf@, endianness);
        }
        Ok(read_uint(buf, endianness) as u32)
    }
}

impl BinarySerdeRoundtrip for u32 {
    proof fn lemma_roundtrip(&self, endianness: Endianness) {
        lemma_pow256_values();
        lemma_uint_roundtrip(*self as nat, 4, endianness);
    }
}

impl BinarySerdeInfallible for u32 {
    proof fn lemma_deserialize_ok(bytes: Seq<u8>, endianness: Endianness) {
    }
}

impl BinarySerde for u64 {
    const SERIALIZED_SIZE: usize = 8;

    open spec fn spec_serialized_size() -> nat {
        8
    }

    proof fn lemma_serialized_size() {
        assert(Self::SERIALIZED_SIZE == 8);
    }

    open spec fn spec_serialize(&self, endianness: Endianness) -> Seq<u8> {
        uint_bytes(*self as nat, 8, endianness)
    }

    open spec fn spec_deserialize(bytes: Seq<u8>, endianness: Endianness) -> Result<
        Self,
        DeserializeError,
    > {
        Ok(uint_value(bytes, endianness) as u64)
    }

    proof fn lemma_serialized_len(&self, endianness: Endianness) {
        lemma_pow256_values();
        lemma_uint_roundtrip(*self as nat, 8, endianness);
    }

    fn binary_serialize(&self, buf: &mut [u8], endianness: Endianness) {
        write_uint(*self as u128, buf, endianness);
    }

    fn binary_deserialize(buf: &[u8], endianness: Endianness) -> (r: Result<Self, DeserializeError>) {
        proof {
            lemma_pow256_values();
            lemma_uint_bytes_of_value(buf@, endianness);
        }
        Ok(read_uint(buf, endianness) as u64)
    }
}

impl BinarySerdeRoundtrip for u64 {
    proof fn lemma_roundtrip(&self, endianness: Endianness) {
        lemma_pow256_values();
        lemma_uint_roundtrip(*self as nat, 8, endianness);
    }
}

impl BinarySerdeInfallible for u64 {
    proof fn lemma_deserialize_ok(bytes: Seq<u8>, endianness: Endianness) {
    }
}

impl BinarySerde for u128 {
    const SERIALIZED_SIZE: usize = 16;

    open spec fn spec_serialized_size() -> nat {
        16
    }

    proof fn lemma_serialized_size() {
        assert(Self::SERIALIZED_SIZE == 16);
    }

    open spec fn spec_serialize(&self, endianness: Endianness) -> Seq<u8> {
        uint_bytes(*self as nat, 16, endianness)
    }

    open spec fn spec_deserialize(bytes: Seq<u8>, endianness: Endianness) -> Result<
        Self,
        DeserializeError,
    > {
        Ok(uint_value(bytes, endianness) as u128)
    }

    proof fn lemma_serialized_len(&self, endianness: Endianness) {
        lemma_pow256_values();
        lemma_uint_roundtrip(*self as nat, 16, endianness);
    }

    fn binary_serialize(&self, buf: &mut [u8], endianness: Endianness) {
        write_uint(*self as u128, buf, endianness);
    }

    fn binary_deserialize(buf: &[u8], endianness: Endianness) -> (r: Result<Self, DeserializeError>) {
        proof {
            lemma_pow256_values();
            lemma_uint_bytes_of_value(buf@, endianness);
        }
        Ok(read_uint(buf, endianness) as u128)
    }
}

impl BinarySerdeRoundtrip for u128 {
    proof fn lemma_roundtrip(&self, endianness: Endianness) {
        lemma_pow256_values();
        lemma_uint_roundtrip(*self as nat, 16, endianness);
    }
}

impl BinarySerdeInfallible for u128 {
    proof fn lemma_deserialize_ok(bytes: Seq<u8>, endianness: Endianness) {
    }
}

impl BinarySerde for i16 {
    const SERIALIZED_SIZE: usize = 2;

    open spec fn spec_serialized_size() -> nat {
        2
    }

    proof fn lemma_serialized_size() {
        assert(Self::SERIALIZED_SIZE == 2);
    }

    open spec fn spec_serialize(&self, endianness: Endianness) -> Seq<u8> {
        int_bytes(*self as int, 2, endianness)
    }

    open spec fn spec_deserialize(bytes: Seq<u8>, endianness: Endianness) -> Result<
        Self,
        DeserializeError,
    > {
        Ok(int_value(bytes, endianness) as i16)
    }

    proof fn lemma_serialized_len(&self, endianness: Endianness) {
        lemma_pow256_values();
        lemma_int_roundtrip(*self as int, 2, endianness);
    }

    fn binary_serialize(&self, buf: &mut [u8], endianness: Endianness) {
        write_int(*self as i128, buf, endianness);
    }

    fn binary_deserialize(buf: &[u8], endianness: Endianness) -> (r: Result<Self, DeserializeError>) {
        proof {
            lemma_pow256_values();
            lemma_int_value_range(buf@, endianness);
        }
        Ok(read_int(buf, endianness) as i16)
    }
}

impl BinarySerdeRoundtrip for i16 {
    proof fn lemma_roundtrip(&self, endianness: Endianness) {
        lemma_pow256_values();
        lemma_int_roundtrip(*self as int, 2, endianness);
    }
}

impl BinarySerdeInfallible for i16 {
    proof fn lemma_deserialize_ok(bytes: Seq<u8>, endianness: Endianness) {
    }
}

impl BinarySerde for i32 {
    const SERIALIZED_SIZE: usize = 4;

    open spec fn spec_serialized_size() -> nat {
        4
    }

    proof fn lemma_serialized_size() {
        assert(Self::SERIALIZED_SIZE == 4);
    }

    open spec fn spec_serialize(&self, endianness: Endianness) -> Seq<u8> {
        int_bytes(*self as int, 4, endianness)
    }

    open spec fn spec_deserialize(bytes: Seq<u8>, endianness: Endianness) -> Result<
        Self,
        DeserializeError,
    > {
        Ok(int_value(bytes, endianness) as i32)
    }

    proof fn lemma_serialized_len(&self, endianness: Endianness) {
        lemma_pow256_values();
        lemma_int_roundtrip(*self as int, 4, endianness);
    }

    fn binary_serialize(&self, buf: &mut [u8], endianness: Endianness) {
        write_int(*self as i128, buf, endianness);
    }

    fn binary_deserialize(buf: &[u8], endianness: Endianness) -> (r: Result<Self, DeserializeError>) {
        proof {
            lemma_pow256_values();
            lemma_int_value_range(buf@, endianness);
        }
        Ok(read_int(buf, endianness) as i32)
    }
}

impl BinarySerdeRoundtrip for i32 {
    proof fn lemma_roundtrip(&self, endianness: Endianness) {
        lemma_pow256_values();
        lemma_int_roundtrip(*self as int, 4, endianness);
    }
}

impl BinarySerdeInfallible for i32 {
    proof fn lemma_deserialize_ok(bytes: Seq<u8>, endianness: Endianness) {
    }
}

impl BinarySerde for i64 {
    const SERIALIZED_SIZE: usize = 8;

    open spec fn spec_serialized_size() -> nat {
        8
    }

    proof fn lemma_serialized_size() {
        assert(Self::SERIALIZED_SIZE == 8);
    }

    open spec fn spec_serialize(&self, endianness: Endianness) -> Seq<u8> {
        int_bytes(*self as int, 8, endianness)
    }

    open spec fn spec_deserialize(bytes: Seq<u8>, endianness: Endianness) -> Result<
        Self,
        DeserializeError,
    > {
        Ok(int_value(bytes, endianness) as i64)
    }

    proof fn lemma_serialized_len(&self, endianness: Endianness) {
        lemma_pow256_values();
        lemma_int_roundtrip(*self as int, 8, endianness);
    }

    fn binary_serialize(&self, buf: &mut [u8], endianness: Endianness) {
        write_int(*self as i128, buf, endianness);
    }

    fn binary_deserialize(buf: &[u8], endianness: Endianness) -> (r: Result<Self, DeserializeError>) {
        proof {
            lemma_pow256_values();
            lemma_int_value_range(buf@, endianness);
        }
        Ok(read_int(buf, endianness) as i64)
    }
}

impl BinarySerdeRoundtrip for i64 {
    proof fn lemma_roundtrip(&self, endianness: Endianness) {
        lemma_pow256_values();
        lemma_int_roundtrip(*self as int, 8, endianness);
    }
}

impl BinarySerdeInfallible for i64 {
    proof fn lemma_deserialize_ok(bytes: Seq<u8>, endianness: Endianness) {
    }
}

impl BinarySerde for i128 {
    const SERIALIZED_SIZE: usize = 16;

    open spec fn spec_serialized_size() -> nat {
        16
    }

    proof fn lemma_serialized_size() {
        assert(Self::SERIALIZED_SIZE == 16);
    }

    open spec fn spec_serialize(&self, endianness: Endianness) -> Seq<u8> {
        int_bytes(*self as int, 16, endianness)
    }

    open spec fn spec_deserialize(bytes: Seq<u8>, endianness: Endianness) -> Result<
        Self,
        DeserializeError,
    > {
        Ok(int_value(bytes, endianness) as i128)
    }

    proof fn lemma_serialized_len(&self, endianness: Endianness) {
        lemma_pow256_values();
        lemma_int_roundtrip(*self as int, 16, endianness);
    }

    fn binary_serialize(&self, buf: &mut [u8], endianness: Endianness) {
        write_int(*self as i128, buf, endianness);
    }

    fn binary_deserialize(buf: &[u8], endianness: Endianness) -> (r: Result<Self, DeserializeError>) {
        proof {
            lemma_pow256_values();
            lemma_int_value_range(buf@, endianness);
        }
        Ok(read_int(buf, endianness) as i128)
    }
}

impl BinarySerdeRoundtrip for i128 {
    proof fn lemma_roundtrip(&self, endianness: Endianness) {
        lemma_pow256_values();
        lemma_int_roundtrip(*self as int, 16, endianness);
    }
}

impl BinarySerdeInfallible for i128 {
    proof fn lemma_deserialize_ok(bytes: Seq<u8>, endianness: Endianness) {
    }
}

} // verus!
