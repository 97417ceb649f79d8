use binary_serde::{
    binary_serialize_into_vec, BinaryDeserializerFromBuf, BinaryDeserializerFromBufSafe,
    BinaryDeserializerFromStream, BinarySerdeBuf, BinarySerdeBufSafe, BinarySerdeBufSafeError,
    BinarySerde, BinarySerializerToStream, BinarySerializerToVec, DeserializeError,
    DeserializeFromError, Endianness,
};

#[test]
fn serializer_to_vec_appends_values() {
    let mut s = BinarySerializerToVec::new(Endianness::Big);
    s.serialize(&0x0102u16);
    s.serialize(&0x03u8);
    s.serialize(&-1i32);
    assert_eq!(s.data(), &[1, 2, 3, 0xff, 0xff, 0xff, 0xff]);
    assert_eq!(s.endianness(), Endianness::Big);
    s.set_endianness(Endianness::Little);
    s.serialize(&0x0405u16);
    assert_eq!(s.buffer(), &vec![1, 2, 3, 0xff, 0xff, 0xff, 0xff, 5, 4]);
    s.buffer_mut().push(9);
    assert_eq!(s.into_buffer(), vec![1, 2, 3, 0xff, 0xff, 0xff, 0xff, 5, 4, 9]);
}

#[test]
fn serializer_to_vec_keeps_initial_buffer() {
    let mut s = BinarySerializerToVec::new_with_buffer(vec![7, 7], Endianness::Little);
    s.serialize(&0x0a0bu16);
    assert_eq!(s.data(), &[7, 7, 0x0b, 0x0a]);
    let c = s.clone();
    assert_eq!(c.data(), &[7, 7, 0x0b, 0x0a]);
}

#[test]
fn serialize_into_vec_appends() {
    let mut v = vec![0xee];
    binary_serialize_into_vec(&0x11223344u32, Endianness::Big, &mut v);
    assert_eq!(v, vec![0xee, 0x11, 0x22, 0x33, 0x44]);
}

#[test]
fn deserializer_reads_what_serializer_wrote() {
    let mut s = BinarySerializerToVec::new(Endianness::Little);
    s.serialize(&0xdeadbeefu32);
    s.serialize(&true);
    s.serialize(&[-3i16, 4]);
    let bytes = s.into_buffer();
    let mut d = BinaryDeserializerFromBuf::new(&bytes, Endianness::Little);
    assert_eq!(d.deserialize::<u32>().unwrap(), 0xdeadbeef);
    assert_eq!(d.position(), 4);
    assert_eq!(d.deserialize::<bool>().unwrap(), true);
    assert_eq!(d.deserialize::<[i16; 2]>().unwrap(), [-3, 4]);
    assert_eq!(d.position(), 9);
    assert_eq!(d.buf(), &bytes[..]);
}

#[test]
fn deserializer_moves_and_switches_endianness() {
    let bytes = [0x01u8, 0x02, 0x03, 0x04];
    let mut d = BinaryDeserializerFromBuf::new(&bytes, Endianness::Big);
    d.move_forwards(2);
    assert_eq!(d.deserialize::<u16>().unwrap(), 0x0304);
    d.move_backwards(4);
    assert_eq!(d.position(), 0);
    d.set_endianness(Endianness::Little);
    assert_eq!(d.endianness(), Endianness::Little);
    assert_eq!(d.deserialize::<u16>().unwrap(), 0x0201);
    d.set_position(1);
    assert_eq!(d.deserialize::<u8>().unwrap(), 0x02);
}

#[test]
fn serde_buf_writes_then_reads_back() {
    let mut storage = [0u8; 8];
    {
        let mut b = BinarySerdeBuf::new(&mut storage, Endianness::Big);
        b.serialize(&0x1234u16);
        b.serialize(&0x56789abcu32);
        assert_eq!(b.position(), 6);
        b.set_position(0);
        assert_eq!(b.deserialize::<u16>().unwrap(), 0x1234);
        assert_eq!(b.deserialize::<u32>().unwrap(), 0x56789abc);
        b.move_backwards(4);
        b.set_endianness(Endianness::Little);
        assert_eq!(b.endianness(), Endianness::Little);
        assert_eq!(b.deserialize::<u32>().unwrap(), 0xbc9a7856);
        b.move_forwards(1);
        b.serialize(&0xffu8);
        assert_eq!(b.buf()[7], 0xff);
    }
    assert_eq!(storage, [0x12, 0x34, 0x56, 0x78, 0x9a, 0xbc, 0, 0xff]);
}

#[test]
fn safe_buf_reports_out_of_bounds() {
    let mut storage = [0u8; 3];
    let mut b = BinarySerdeBufSafe::new(&mut storage, Endianness::Big);
    match b.serialize(&0x01020304u32) {
        Err(BinarySerdeBufSafeError::OutOfBounds { index, buf_len }) => {
            assert_eq!((index, buf_len), (3, 3));
        },
        other => panic!("unexpected {:?}", other),
    }
    assert_eq!(b.position(), 0);
    assert!(b.serialize(&0x0102u16).is_ok());
    assert_eq!(b.position(), 2);
    match b.serialize(&0x0304u16) {
        Err(BinarySerdeBufSafeError::OutOfBounds { index, buf_len }) => {
            assert_eq!((index, buf_len), (3, 3));
        },
        other => panic!("unexpected {:?}", other),
    }
    assert!(b.serialize(&0x03u8).is_ok());
    match b.serialize(&()) {
        Err(BinarySerdeBufSafeError::OutOfBounds { index, buf_len }) => {
            assert_eq!((index, buf_len), (3, 3));
        },
        other => panic!("unexpected {:?}", other),
    }
    b.set_position(0);
    assert_eq!(b.deserialize::<[u8; 3]>().unwrap(), [1, 2, 3]);
    match b.deserialize::<u8>() {
        Err(BinarySerdeBufSafeError::OutOfBounds { index, buf_len }) => {
            assert_eq!((index, buf_len), (3, 3));
        },
        other => panic!("unexpected {:?}", other),
    }
    assert_eq!(b.position(), 3);
    b.move_backwards(3);
    b.move_forwards(1);
    b.set_endianness(Endianness::Little);
    assert_eq!(b.endianness(), Endianness::Little);
    assert_eq!(b.deserialize::<u16>().unwrap(), 0x0302);
    assert_eq!(b.buf().len(), 3);
    drop(b);
    assert_eq!(storage, [1, 2, 3]);
}

#[test]
fn safe_deserializer_reports_out_of_bounds() {
    let bytes = [0xaau8, 0xbb, 0xcc];
    let mut d = BinaryDeserializerFromBufSafe::new(&bytes, Endianness::Little);
    assert_eq!(d.deserialize::<u16>().unwrap(), 0xbbaa);
    match d.deserialize::<u16>() {
        Err(BinarySerdeBufSafeError::OutOfBounds { index, buf_len }) => {
            assert_eq!((index, buf_len), (3, 3));
        },
        other => panic!("unexpected {:?}", other),
    }
    assert_eq!(d.position(), 2);
    d.move_forwards(5);
    match d.deserialize::<u8>() {
        Err(BinarySerdeBufSafeError::OutOfBounds { index, buf_len }) => {
            assert_eq!((index, buf_len), (7, 3));
        },
        other => panic!("unexpected {:?}", other),
    }
    d.move_backwards(5);
    d.set_endianness(Endianness::Big);
    assert_eq!(d.endianness(), Endianness::Big);
    assert_eq!(d.deserialize::<u8>().unwrap(), 0xcc);
    d.set_position(0);
    assert_eq!(d.deserialize::<u16>().unwrap(), 0xaabb);
    assert_eq!(d.buf(), &bytes[..]);
}

#[test]
fn error_conversions() {
    let e = DeserializeError::InvalidEnumValue { enum_name: "Kind" };
    match BinarySerdeBufSafeError::from(e) {
        BinarySerdeBufSafeError::DeserializeError(DeserializeError::InvalidEnumValue { enum_name }) => {
            assert_eq!(enum_name, "Kind");
        },
        other => panic!("unexpected {:?}", other),
    }
    let e = DeserializeError::InvalidEnumValue { enum_name: "Kind" };
    assert!(matches!(DeserializeFromError::from(e), DeserializeFromError::DeserializeError(_)));
    let io = std::io::Error::new(std::io::ErrorKind::UnexpectedEof, "short");
    assert!(matches!(DeserializeFromError::from(io), DeserializeFromError::IoError(_)));
}

#[test]
fn stream_wrappers_hold_stream_and_endianness() {
    let mut s = BinarySerializerToStream::new(Vec::<u8>::new(), Endianness::Big);
    s.stream_mut().push(1);
    assert_eq!(s.stream(), &vec![1]);
    s.set_endianness(Endianness::Little);
    assert_eq!(s.endianness(), Endianness::Little);
    assert_eq!(s.into_stream(), vec![1]);

    let mut d = BinaryDeserializerFromStream::new(std::io::Cursor::new(vec![5u8]), Endianness::Little);
    assert_eq!(d.endianness(), Endianness::Little);
    d.set_endianness(Endianness::Big);
    assert_eq!(d.endianness(), Endianness::Big);
    d.stream_mut().set_position(1);
    assert_eq!(d.stream().position(), 1);
    assert_eq!(d.into_stream().into_inner(), vec![5]);
}

#[test]
fn deserializer_never_changes_its_buffer() {
    let bytes = [9u8, 8, 7, 6, 5, 4];
    let mut d = BinaryDeserializerFromBuf::new(&bytes, Endianness::Little);
    assert_eq!(d.deserialize::<u16>().unwrap(), 0x0809);
    d.set_endianness(Endianness::Big);
    d.move_forwards(1);
    assert_eq!(d.deserialize::<u8>().unwrap(), 6);
    d.move_backwards(3);
    d.set_position(4);
    assert_eq!(d.deserialize::<u16>().unwrap(), 0x0504);
    assert_eq!(d.buf(), &[9u8, 8, 7, 6, 5, 4][..]);
    assert_eq!(d.buf().len(), 6);
}

#[test]
fn serializer_to_vec_holds_one_value_after_another() {
    let a = 0x0102_0304u32;
    let b = [-2i16, 3];
    let mut s = BinarySerializerToVec::new(Endianness::Little);
    s.serialize(&a);
    s.serialize(&b);
    let mut expected = a.binary_serialize_to_array(Endianness::Little);
    expected.extend(b.binary_serialize_to_array(Endianness::Little));
    assert_eq!(s.data(), &expected[..]);
    assert_eq!(s.endianness(), Endianness::Little);

    let mut t = BinarySerializerToVec::new_with_buffer(vec![1, 2, 3], Endianness::Big);
    t.serialize(&0x0a0bu16);
    let mut expected = vec![1, 2, 3];
    expected.extend(0x0a0bu16.binary_serialize_to_array(Endianness::Big));
    assert_eq!(t.into_buffer(), expected);
}
