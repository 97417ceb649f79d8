use vstd::prelude::*;
use crate::buffers::{bounds_error, read_at, written_at};
use crate::error::BinarySerdeBufSafeError;
use crate::endianness::Endianness;
use crate::error::DeserializeError;
use crate::integer::{
    int_bytes, int_value, lemma_pow256_positive, pow256, uint_bytes, uint_value,
    lemma_le_bytes_index, lemma_le_bytes_len,
};
use crate::serialize::{BinarySerde, BinarySerdePadding, BinarySerdeRoundtrip};
use crate::array::{lemma_serialize_items_item, lemma_serialize_items_len};

verus! {

/// Writing a value into a buffer at a position and reading a value of the same
/// type back at that position gives the value.
pub proof fn lemma_read_back_written<T: BinarySerdeRoundtrip>(
    bytes: Seq<u8>,
    position: int,
    value: T,
    endianness: Endianness,
)
    requires
        0 <= position,
        position + T::spec_serialized_size() <= bytes.len(),
    ensures
        read_at::<T>(written_at(bytes, position, value, endianness), position, endianness) == Ok::<
            T,
            DeserializeError,
        >(value),
{
    value.lemma_serialized_len(endianness);
    let w = written_at(bytes, position, value, endianness);
    assert(w.subrange(position, position + T::spec_serialized_size()) =~= value.spec_serialize(
        endianness,
    ));
    value.lemma_roundtrip(endianness);
}

/// Writing a value into a buffer keeps the buffer's length and every byte
/// outside the value's place.
pub proof fn lemma_written_elsewhere_unchanged<T: BinarySerde>(
    bytes: Seq<u8>,
    position: int,
    value: T,
    endianness: Endianness,
)
    requires
        0 <= position,
        position + T::spec_serialized_size() <= bytes.len(),
    ensures
        written_at(bytes, position, value, endianness).len() == bytes.len(),
        forall|i: int|
            0 <= i < bytes.len() && !(position <= i < position + T::spec_serialized_size())
                ==> written_at(bytes, position, value, endianness)[i] == bytes[i],
{
    value.lemma_serialized_len(endianness);
}

/// A value serialized after some bytes, and followed by others, is read back at
/// the position where it starts: what a serializer appends, a deserializer
/// positioned there gives back.
pub proof fn lemma_read_back_appended<T: BinarySerdeRoundtrip>(
    prefix: Seq<u8>,
    value: T,
    suffix: Seq<u8>,
    endianness: Endianness,
)
    ensures
        read_at::<T>(prefix + value.spec_serialize(endianness) + suffix, prefix.len() as int, endianness)
            == Ok::<T, DeserializeError>(value),
{
    value.lemma_serialized_len(endianness);
    let all = prefix + value.spec_serialize(endianness) + suffix;
    assert(all.subrange(prefix.len() as int, (prefix.len() + T::spec_serialized_size()) as int)
        =~= value.spec_serialize(endianness));
    value.lemma_roundtrip(endianness);
}

/// The big endian bytes of an unsigned number are its little endian bytes in reverse.
pub proof fn lemma_uint_big_endian_is_reversed(v: nat, n: nat)
    ensures
        uint_bytes(v, n, Endianness::Big) == uint_bytes(v, n, Endianness::Little).reverse(),
{
}

/// The big endian bytes of a signed number are its little endian bytes in reverse.
pub proof fn lemma_int_big_endian_is_reversed(v: int, n: nat)
    ensures
        int_bytes(v, n, Endianness::Big) == int_bytes(v, n, Endianness::Little).reverse(),
{
}

/// Every string of bytes is the serialization of the unsigned number it
/// deserializes to: unsigned numbers have no invalid or duplicate encodings.
pub proof fn lemma_uint_encoding_is_canonical(bytes: Seq<u8>, endianness: Endianness)
    ensures
        uint_bytes(uint_value(bytes, endianness), bytes.len(), endianness) == bytes,
{
    crate::integer::lemma_uint_bytes_of_value(bytes, endianness);
}

/// Every non-empty string of bytes is the serialization of the signed number it
/// deserializes to: signed numbers have no invalid or duplicate encodings.
pub proof fn lemma_int_encoding_is_canonical(bytes: Seq<u8>, endianness: Endianness)
    requires
        bytes.len() > 0,
    ensures
        int_bytes(int_value(bytes, endianness), bytes.len(), endianness) == bytes,
{
    let n = bytes.len();
    let u = uint_value(bytes, endianness);
    let v = int_value(bytes, endianness);
    let p = pow256(n) as int;
    crate::integer::lemma_uint_bytes_of_value(bytes, endianness);
    lemma_pow256_positive(n);
    if u >= pow256(n) / 2 {
        assert(v == u - p);
        vstd::arithmetic::div_mod::lemma_mod_multiples_vanish(-1, u as int, p);
        vstd::arithmetic::div_mod::lemma_small_mod(u, p as nat);
        assert(v % p == u as int);
    } else {
        vstd::arithmetic::div_mod::lemma_small_mod(u, p as nat);
    }
}


/// A `bool` is read from any byte: every byte other than zero is `true`, and
/// zero is `false`; `true` is written as 1 and `false` as 0.
pub proof fn lemma_bool_is_any_nonzero_byte(byte: u8, endianness: Endianness)
    ensures
        <bool as BinarySerde>::spec_deserialize(seq![byte], endianness) == Ok::<
            bool,
            DeserializeError,
        >(byte != 0),
        true.spec_serialize(endianness) == seq![1u8],
        false.spec_serialize(endianness) == seq![0u8],
{
}

/// The bounds-checked buffers report the first index that falls outside the
/// buffer: the position itself when it is out, and otherwise the last index
/// that the value would cover, `position + size - 1`. A value that lies
/// within the buffer gives no error.
pub proof fn lemma_out_of_bounds_index(position: usize, size: usize, buf_len: usize)
    requires
        position + size <= usize::MAX + 1,
    ensures
        position >= buf_len ==> bounds_error(position as nat, size as nat, buf_len as nat) == Some(
            BinarySerdeBufSafeError::OutOfBounds { index: position, buf_len },
        ),
        position < buf_len && position + size > buf_len ==> bounds_error(
            position as nat,
            size as nat,
            buf_len as nat,
        ) == Some(
            BinarySerdeBufSafeError::OutOfBounds { index: (position + size - 1) as usize, buf_len },
        ),
        position + size <= buf_len && position < buf_len ==> bounds_error(
            position as nat,
            size as nat,
            buf_len as nat,
        ) is None,
{
}

/// The bytes of an unsigned number are its digits in base 256: in little
/// endian byte `j` is digit `j`, in big endian byte `j` is digit `n - 1 - j`.
pub proof fn lemma_uint_byte_layout(v: nat, n: nat, j: int)
    requires
        0 <= j < n,
    ensures
        uint_bytes(v, n, Endianness::Little).len() == n,
        uint_bytes(v, n, Endianness::Big).len() == n,
        uint_bytes(v, n, Endianness::Little)[j] == ((v / pow256(j as nat)) % 256) as u8,
        uint_bytes(v, n, Endianness::Big)[j] == ((v / pow256((n - 1 - j) as nat)) % 256) as u8,
{
    lemma_le_bytes_len(v, n);
    lemma_le_bytes_index(v, n, j);
    lemma_le_bytes_index(v, n, n - 1 - j);
}

/// The integer types are written as the bytes of their value, in two's
/// complement for the signed ones, with as many bytes as the type has.
pub proof fn lemma_integers_are_written_in_base_256(endianness: Endianness)
    ensures
        forall|v: u8| #[trigger] v.spec_serialize(endianness) == seq![v],
        forall|v: u16| #[trigger] v.spec_serialize(endianness) == uint_bytes(v as nat, 2, endianness),
        forall|v: u32| #[trigger] v.spec_serialize(endianness) == uint_bytes(v as nat, 4, endianness),
        forall|v: u64| #[trigger] v.spec_serialize(endianness) == uint_bytes(v as nat, 8, endianness),
        forall|v: u128| #[trigger] v.spec_serialize(endianness) == uint_bytes(v as nat, 16, endianness),
        forall|v: i8|
            #[trigger] v.spec_serialize(endianness) == seq![
                (if v < 0 {
                    v + 256
                } else {
                    v as int
                }) as u8,
            ],
        forall|v: i16| #[trigger] v.spec_serialize(endianness) == int_bytes(v as int, 2, endianness),
        forall|v: i32| #[trigger] v.spec_serialize(endianness) == int_bytes(v as int, 4, endianness),
        forall|v: i64| #[trigger] v.spec_serialize(endianness) == int_bytes(v as int, 8, endianness),
        forall|v: i128| #[trigger] v.spec_serialize(endianness) == int_bytes(v as int, 16, endianness),
{
    assert forall|v: i8| #[trigger] v.spec_serialize(endianness) == seq![
        (if v < 0 {
            v + 256
        } else {
            v as int
        }) as u8,
    ] by {
        if v < 0 {
            assert((v as int) % 256 == v + 256);
        } else {
            assert((v as int) % 256 == v);
        }
    }
}

/// Reading the integer types: a number is read from its bytes in base 256,
/// and the signed types read a byte string in two's complement; a single
/// byte `b` read as an `i8` is `b` below 128 and `b - 256` from 128 on.
pub proof fn lemma_integers_are_read_in_base_256(bytes: Seq<u8>, endianness: Endianness)
    ensures
        bytes.len() == 1 ==> <u8 as BinarySerde>::spec_deserialize(bytes, endianness) == Ok::<
            u8,
            DeserializeError,
        >(bytes[0]),
        bytes.len() == 1 ==> <i8 as BinarySerde>::spec_deserialize(bytes, endianness) == Ok::<
            i8,
            DeserializeError,
        >(
            (if bytes[0] >= 128 {
                bytes[0] - 256
            } else {
                bytes[0] as int
            }) as i8,
        ),
        <u16 as BinarySerde>::spec_deserialize(bytes, endianness) == Ok::<u16, DeserializeError>(
            uint_value(bytes, endianness) as u16,
        ),
        <u32 as BinarySerde>::spec_deserialize(bytes, endianness) == Ok::<u32, DeserializeError>(
            uint_value(bytes, endianness) as u32,
        ),
        <u64 as BinarySerde>::spec_deserialize(bytes, endianness) == Ok::<u64, DeserializeError>(
            uint_value(bytes, endianness) as u64,
        ),
        <u128 as BinarySerde>::spec_deserialize(bytes, endianness) == Ok::<u128, DeserializeError>(
            uint_value(bytes, endianness) as u128,
        ),
        <i16 as BinarySerde>::spec_deserialize(bytes, endianness) == Ok::<i16, DeserializeError>(
            int_value(bytes, endianness) as i16,
        ),
        <i32 as BinarySerde>::spec_deserialize(bytes, endianness) == Ok::<i32, DeserializeError>(
            int_value(bytes, endianness) as i32,
        ),
        <i64 as BinarySerde>::spec_deserialize(bytes, endianness) == Ok::<i64, DeserializeError>(
            int_value(bytes, endianness) as i64,
        ),
        <i128 as BinarySerde>::spec_deserialize(bytes, endianness) == Ok::<i128, DeserializeError>(
            int_value(bytes, endianness) as i128,
        ),
{
}

/// Padding is written as `PADDING_LENGTH` copies of `PADDING_VALUE`, and
/// reading it accepts any bytes.
pub proof fn lemma_padding_layout<const PADDING_LENGTH: usize, const PADDING_VALUE: u8>(
    padding: BinarySerdePadding<PADDING_LENGTH, PADDING_VALUE>,
    bytes: Seq<u8>,
    endianness: Endianness,
)
    ensures
        padding.spec_serialize(endianness).len() == PADDING_LENGTH,
        forall|j: int|
            0 <= j < PADDING_LENGTH ==> #[trigger] padding.spec_serialize(endianness)[j]
                == PADDING_VALUE,
        BinarySerdePadding::<PADDING_LENGTH, PADDING_VALUE>::spec_deserialize(bytes, endianness) is Ok,
{
}

/// An array is written item after item, in order: the bytes from
/// `i * size` to `(i + 1) * size`, where `size` is the serialized size of an
/// item, are the serialization of item `i`.
pub proof fn lemma_array_items_in_order<T: BinarySerde, const N: usize>(
    items: [T; N],
    endianness: Endianness,
    i: int,
)
    requires
        0 <= i < N,
    ensures
        items.spec_serialize(endianness).len() == N * T::spec_serialized_size(),
        items.spec_serialize(endianness).subrange(
            i * T::spec_serialized_size(),
            (i + 1) * T::spec_serialized_size(),
        ) == items@[i].spec_serialize(endianness),
{
    lemma_serialize_items_len(items@, endianness, N as nat);
    lemma_serialize_items_item(items@, endianness, N as nat, i);
}

/// Writing a value at a position replaces exactly the bytes from the position
/// on that the value covers with its serialization; the length and every
/// other byte stay. Reading at a position reads the bytes that a value of the
/// type covers from there.
pub proof fn lemma_write_and_read_at_position<T: BinarySerde>(
    bytes: Seq<u8>,
    position: int,
    value: T,
    endianness: Endianness,
)
    requires
        0 <= position,
        position + T::spec_serialized_size() <= bytes.len(),
    ensures
        written_at(bytes, position, value, endianness).len() == bytes.len(),
        forall|k: int|
            0 <= k < bytes.len() ==> #[trigger] written_at(bytes, position, value, endianness)[k]
                == if position <= k < position + T::spec_serialized_size() {
                value.spec_serialize(endianness)[k - position]
            } else {
                bytes[k]
            },
        read_at::<T>(bytes, position, endianness) == T::spec_deserialize(
            bytes.subrange(position, position + T::spec_serialized_size()),
            endianness,
        ),
{
    value.lemma_serialized_len(endianness);
}
} // verus!
