//! Serializing and deserializing values into a packed binary format.
//!
//! Every value is written field after field, in the order of its fields, each
//! according to the chosen endianness. The serialized size of a type is fixed,
//! so a value can be serialized into a buffer of known size. Bitfields pack
//! several values into a run of bits, least significant bit first.

pub mod array;
pub mod bitfield;
pub mod bits;
pub mod buffers;
pub mod derive;
pub mod endianness;
pub mod error;
pub mod integer;
pub mod laws;
pub mod serialize;

pub use bitfield::{pack_bitfield, unpack_bitfield};
pub use bits::{_copy_bits, LsbBitReader, LsbBitWriter};
pub use buffers::{
    binary_serialize_into_vec, BinaryDeserializerFromBuf, BinaryDeserializerFromBufSafe,
    BinaryDeserializerFromStream, BinarySerdeBuf, BinarySerdeBufSafe, BinarySerializerToStream,
    BinarySerializerToVec,
};
pub use endianness::{BitfieldBitOrder, Endianness};
pub use error::{BinarySerdeBufSafeError, DeserializeError, DeserializeFromError};
pub use serialize::{BinarySerde, BinarySerdeInfallible, BinarySerdePadding, BinarySerdeRoundtrip};
