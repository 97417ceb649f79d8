//! The relocation entry of the crate's documentation, serialized field by
//! field: an offset, a bitfield of an 8 bit type and a 24 bit symbol index,
//! and an addend.
use binary_serde::bitfield::{pack_bitfield, unpack_bitfield};
use binary_serde::{
    BinaryDeserializerFromBuf, BinarySerde, BinarySerdeBuf, BitfieldBitOrder, DeserializeError,
    Endianness,
};

#[derive(Debug, PartialEq, Eq, Clone, Copy)]
enum RelocationType {
    Direct,
    PcRelative,
    GotEntry,
}

#[derive(Debug, PartialEq, Eq)]
struct Relocation {
    offset: u32,
    ty: RelocationType,
    symbol_index: u32,
    addend: u32,
}

fn type_tag(ty: RelocationType) -> u8 {
    match ty {
        RelocationType::Direct => 1,
        RelocationType::PcRelative => 2,
        RelocationType::GotEntry => 3,
    }
}

fn type_of_tag(tag: u8) -> Result<RelocationType, DeserializeError> {
    match tag {
        1 => Ok(RelocationType::Direct),
        2 => Ok(RelocationType::PcRelative),
        3 => Ok(RelocationType::GotEntry),
        _ => Err(DeserializeError::InvalidEnumValue { enum_name: "RelocationType" }),
    }
}

fn serialize(rel: &Relocation, endianness: Endianness) -> Vec<u8> {
    let mut info = [0u8; 4];
    let fields = vec![
        type_tag(rel.ty).binary_serialize_to_array(endianness),
        rel.symbol_index.binary_serialize_to_array(endianness),
    ];
    pack_bitfield(&fields, &vec![8, 24], &BitfieldBitOrder::LsbFirst, &mut info, endianness);
    let mut bytes = vec![0u8; 12];
    {
        let mut writer = BinarySerdeBuf::new(&mut bytes, endianness);
        writer.serialize(&rel.offset);
        writer.serialize(&info);
        writer.serialize(&rel.addend);
    }
    bytes
}

fn deserialize(bytes: &[u8], endianness: Endianness) -> Result<Relocation, DeserializeError> {
    let mut reader = BinaryDeserializerFromBuf::new(bytes, endianness);
    let offset: u32 = reader.deserialize()?;
    let info: [u8; 4] = reader.deserialize()?;
    let addend: u32 = reader.deserialize()?;
    let unpacked = unpack_bitfield(&info, &vec![1, 4], &vec![8, 24], &BitfieldBitOrder::LsbFirst, endianness);
    Ok(Relocation {
        offset,
        ty: type_of_tag(u8::binary_deserialize(&unpacked[0], endianness)?)?,
        symbol_index: u32::binary_deserialize(&unpacked[1], endianness)?,
        addend,
    })
}

#[test]
fn relocation_roundtrip_default() {
    let rel = Relocation { offset: 0, ty: RelocationType::Direct, symbol_index: 0, addend: 0 };
    let bytes = serialize(&rel, Endianness::Little);
    assert_eq!(bytes, vec![0, 0, 0, 0, 1, 0, 0, 0, 0, 0, 0, 0]);
    assert_eq!(deserialize(&bytes, Endianness::Little).unwrap(), rel);
}

#[test]
fn relocation_roundtrip_values() {
    let rel = Relocation {
        offset: 0x1000,
        ty: RelocationType::GotEntry,
        symbol_index: 0x123456,
        addend: 0xfffffffc,
    };
    let little = serialize(&rel, Endianness::Little);
    assert_eq!(little, vec![0x00, 0x10, 0, 0, 0x03, 0x56, 0x34, 0x12, 0xfc, 0xff, 0xff, 0xff]);
    let big = serialize(&rel, Endianness::Big);
    assert_eq!(big, vec![0, 0, 0x10, 0x00, 0x12, 0x34, 0x56, 0x03, 0xff, 0xff, 0xff, 0xfc]);
    assert_eq!(deserialize(&little, Endianness::Little).unwrap(), rel);
    assert_eq!(deserialize(&big, Endianness::Big).unwrap(), rel);
}

#[test]
fn relocation_with_invalid_type() {
    let bytes = [0u8, 0, 0, 0, 7, 0, 0, 0, 0, 0, 0, 0];
    match deserialize(&bytes, Endianness::Little) {
        Err(DeserializeError::InvalidEnumValue { enum_name }) => assert_eq!(enum_name, "RelocationType"),
        other => panic!("unexpected {:?}", other),
    }
}

#[test]
fn unsigned_and_signed_bytes_reencode_to_themselves() {
    for bytes in [[0u8, 0, 0, 0], [0xff, 0, 0x80, 1], [0x12, 0x34, 0x56, 0x78]] {
        for e in [Endianness::Big, Endianness::Little] {
            let v = u32::binary_deserialize(&bytes, e).unwrap();
            assert_eq!(v.binary_serialize_to_array(e), bytes.to_vec());
            let w = i32::binary_deserialize(&bytes, e).unwrap();
            assert_eq!(w.binary_serialize_to_array(e), bytes.to_vec());
        }
    }
}
