# binary_serde

Serializes and deserializes values into a packed binary format: every value is
written field after field, each in the chosen endianness, and every type has a
fixed serialized size. Bitfields pack several values into a run of bits, least
significant bit first.

The library in `src/` is verified with Verus.

- `serialize.rs`: the `BinarySerde` trait, whose contract is given by
  `spec_serialize` and `spec_deserialize`, and its implementations for the
  integers, `bool`, `()`, `PhantomData` and `BinarySerdePadding`. The traits
  `BinarySerdeRoundtrip` (deserializing a serialization gives the value back)
  and `BinarySerdeInfallible` (every byte string of the right size
  deserializes) are implemented for the same types.
- `array.rs`: `BinarySerde` for arrays, item after item.
- `integer.rs`: the little and big endian, two's complement encoding of
  integers, with its lemmas, among them that bit `q` of the bytes of a number
  is digit `q` of the number in base 2.
- `bits.rs`: reading and writing byte slices as bit streams, and copying bits
  from one stream to another; the masks and bit extraction as numbers, and
  the laws that a run of reads or writes moves on by the sum of its bit counts.
- `bitfield.rs`: packing the low bits of several fields into a bitfield and
  unpacking them, and the laws that unpacking gives the packed fields back,
  and that an unsigned number comes back modulo 2 to the power of its bit
  length.
- `buffers.rs`: serializers and deserializers over vectors, buffers and
  streams, with and without bounds checks; the laws that a deserializer never
  changes its buffer and that a serializer appends one value after another.
- `derive.rs`: the decisions of the derive and bitfield macros on plain values:
  variant constant names, which items the derive applies to, which attribute
  gives an enum's `repr` type or a field's bit length and what they say, the
  parsing of unsigned decimal numbers, and field offsets.
- `laws.rs`: laws that relate several functions: reading back what was
  written, the endianness of integers, the canonical encoding of integers.

`app/` holds what is not verified: stream input and output, error types that
implement `Display`, the native endianness, floating-point values, and the
code generators of the macros, which work on token streams.
