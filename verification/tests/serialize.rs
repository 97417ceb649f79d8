use binary_serde::{BinarySerde, BinarySerdePadding, Endianness};
use std::marker::PhantomData;

fn ser<T: BinarySerde>(value: &T, endianness: Endianness) -> Vec<u8> {
    let mut buf = vec![0u8; T::SERIALIZED_SIZE];
    value.binary_serialize(&mut buf, endianness);
    buf
}

#[test]
fn u32_big_and_little_endian_bytes() {
    assert_eq!(ser(&0x12345678u32, Endianness::Big), vec![0x12, 0x34, 0x56, 0x78]);
    assert_eq!(ser(&0x12345678u32, Endianness::Little), vec![0x78, 0x56, 0x34, 0x12]);
    assert_eq!(u32::SERIALIZED_SIZE, 4);
}

#[test]
fn u16_and_u64_bytes() {
    assert_eq!(ser(&0xbeefu16, Endianness::Big), vec![0xbe, 0xef]);
    assert_eq!(ser(&0x0102030405060708u64, Endianness::Little), vec![8, 7, 6, 5, 4, 3, 2, 1]);
}

#[test]
fn u128_max_and_roundtrip() {
    assert_eq!(ser(&u128::MAX, Endianness::Big), vec![0xff; 16]);
    let v: u128 = 0x0102030405060708090a0b0c0d0e0f10;
    let bytes = ser(&v, Endianness::Big);
    assert_eq!(bytes, (1u8..=16).collect::<Vec<u8>>());
    assert_eq!(u128::binary_deserialize(&bytes, Endianness::Big).unwrap(), v);
    assert_eq!(u128::binary_deserialize(&bytes, Endianness::Little).unwrap(), 0x100f0e0d0c0b0a090807060504030201);
}

#[test]
fn signed_twos_complement_bytes() {
    assert_eq!(ser(&-2i16, Endianness::Big), vec![0xff, 0xfe]);
    assert_eq!(ser(&-2i16, Endianness::Little), vec![0xfe, 0xff]);
    assert_eq!(ser(&i32::MIN, Endianness::Big), vec![0x80, 0, 0, 0]);
    assert_eq!(ser(&-1i64, Endianness::Little), vec![0xff; 8]);
    assert_eq!(i16::binary_deserialize(&[0x80, 0x00], Endianness::Big).unwrap(), i16::MIN);
    assert_eq!(i16::binary_deserialize(&[0x7f, 0xff], Endianness::Big).unwrap(), i16::MAX);
    assert_eq!(i32::binary_deserialize(&[0xfe, 0xff, 0xff, 0xff], Endianness::Little).unwrap(), -2);
}

#[test]
fn i128_extremes_roundtrip() {
    for v in [i128::MIN, i128::MIN + 1, -1, 0, 1, i128::MAX] {
        for e in [Endianness::Big, Endianness::Little] {
            let bytes = ser(&v, e);
            assert_eq!(i128::binary_deserialize(&bytes, e).unwrap(), v);
        }
    }
    assert_eq!(ser(&i128::MIN, Endianness::Big)[0], 0x80);
}

#[test]
fn integers_roundtrip_both_endiannesses() {
    for e in [Endianness::Big, Endianness::Little] {
        for v in [0u16, 1, 0x00ff, 0xff00, u16::MAX] {
            assert_eq!(u16::binary_deserialize(&ser(&v, e), e).unwrap(), v);
        }
        for v in [0i64, -1, i64::MIN, i64::MAX, 0x0123_4567_89ab_cdef] {
            assert_eq!(i64::binary_deserialize(&ser(&v, e), e).unwrap(), v);
        }
        for v in [0u64, u64::MAX, 0xdead_beef] {
            assert_eq!(u64::binary_deserialize(&ser(&v, e), e).unwrap(), v);
        }
    }
}

#[test]
fn big_endian_is_little_endian_reversed() {
    let mut le = ser(&0x0a0b0c0du32, Endianness::Little);
    le.reverse();
    assert_eq!(ser(&0x0a0b0c0du32, Endianness::Big), le);
}

#[test]
fn single_byte_types() {
    assert_eq!(ser(&0xabu8, Endianness::Big), vec![0xab]);
    assert_eq!(ser(&-1i8, Endianness::Big), vec![0xff]);
    assert_eq!(ser(&-128i8, Endianness::Little), vec![0x80]);
    assert_eq!(i8::binary_deserialize(&[0x80], Endianness::Big).unwrap(), -128);
    assert_eq!(i8::binary_deserialize(&[0x7f], Endianness::Big).unwrap(), 127);
    assert_eq!(u8::binary_deserialize(&[0x42], Endianness::Little).unwrap(), 0x42);
    assert_eq!(0x42u8.binary_serialize_to_array(Endianness::Little), vec![0x42]);
}

#[test]
fn bool_serializes_to_zero_or_one() {
    assert_eq!(ser(&true, Endianness::Big), vec![1]);
    assert_eq!(ser(&false, Endianness::Big), vec![0]);
    assert_eq!(bool::binary_deserialize(&[0], Endianness::Big).unwrap(), false);
    assert_eq!(bool::binary_deserialize(&[1], Endianness::Big).unwrap(), true);
    assert_eq!(bool::binary_deserialize(&[2], Endianness::Big).unwrap(), true);
}

#[test]
fn zero_sized_types() {
    assert_eq!(<()>::SERIALIZED_SIZE, 0);
    assert_eq!(ser(&(), Endianness::Big), Vec::<u8>::new());
    assert_eq!(<()>::binary_deserialize(&[], Endianness::Big).unwrap(), ());
    assert_eq!(<PhantomData<u64>>::SERIALIZED_SIZE, 0);
    assert_eq!(PhantomData::<u64>.binary_serialize_to_array(Endianness::Big), Vec::<u8>::new());
    assert!(<PhantomData<u64>>::binary_deserialize(&[], Endianness::Little).is_ok());
}

#[test]
fn padding_writes_its_value_and_reads_anything() {
    let pad = BinarySerdePadding::<3, 0xaa>;
    assert_eq!(<BinarySerdePadding<3, 0xaa>>::SERIALIZED_SIZE, 3);
    let mut buf = [1u8, 2, 3];
    pad.binary_serialize(&mut buf, Endianness::Big);
    assert_eq!(buf, [0xaa, 0xaa, 0xaa]);
    assert!(<BinarySerdePadding<3, 0xaa>>::binary_deserialize(&[9, 8, 7], Endianness::Big).is_ok());
    assert_eq!(pad.binary_serialize_to_array(Endianness::Little), vec![0xaa; 3]);
}

#[test]
fn array_serializes_items_in_order() {
    let arr: [u16; 3] = [0x0102, 0x0304, 0x0506];
    assert_eq!(<[u16; 3]>::SERIALIZED_SIZE, 6);
    assert_eq!(ser(&arr, Endianness::Big), vec![1, 2, 3, 4, 5, 6]);
    assert_eq!(ser(&arr, Endianness::Little), vec![2, 1, 4, 3, 6, 5]);
    assert_eq!(<[u16; 3]>::binary_deserialize(&[1, 2, 3, 4, 5, 6], Endianness::Big).unwrap(), arr);
}

#[test]
fn nested_array_roundtrip() {
    let arr: [[i32; 2]; 2] = [[-1, 2], [i32::MIN, i32::MAX]];
    for e in [Endianness::Big, Endianness::Little] {
        let bytes = arr.binary_serialize_to_array(e);
        assert_eq!(bytes.len(), 16);
        assert_eq!(<[[i32; 2]; 2]>::binary_deserialize(&bytes, e).unwrap(), arr);
    }
    let empty: [u32; 0] = [];
    assert_eq!(ser(&empty, Endianness::Big), Vec::<u8>::new());
}

#[test]
fn array_of_bools() {
    let arr = [true, false, true];
    assert_eq!(ser(&arr, Endianness::Little), vec![1, 0, 1]);
    assert_eq!(<[bool; 3]>::binary_deserialize(&[0, 5, 0], Endianness::Little).unwrap(), [false, true, false]);
}
