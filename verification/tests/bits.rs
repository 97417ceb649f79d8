use binary_serde::bits::{get_bits_mask, get_bits_of_byte};
use binary_serde::bitfield::{pack_bitfield, unpack_bitfield};
use binary_serde::{_copy_bits, BitfieldBitOrder, BinarySerde, Endianness, LsbBitReader, LsbBitWriter};

#[test]
fn reader_reads_low_bits_first() {
    let bytes = [0b1011_0110u8, 0b0000_0001];
    let mut r = LsbBitReader::new(&bytes, Endianness::Little);
    assert_eq!(r.cur_byte_index(), 0);
    assert_eq!(r.bits_left_in_cur_byte(), 8);
    assert_eq!(r.read_bits(3), 0b110);
    assert_eq!(r.bits_left_in_cur_byte(), 5);
    assert_eq!(r.read_bits(5), 0b10110);
    assert_eq!(r.cur_byte_index(), 1);
    assert_eq!(r.read_bits(8), 1);
}

#[test]
fn reader_big_endian_starts_at_last_byte() {
    let bytes = [0xaau8, 0x0f];
    let mut r = LsbBitReader::new(&bytes, Endianness::Big);
    assert_eq!(r.cur_byte_index(), 1);
    assert_eq!(r.read_bits(4), 0xf);
    assert_eq!(r.read_bits(4), 0x0);
    assert_eq!(r.cur_byte_index(), 0);
    assert_eq!(r.read_bits(8), 0xaa);
}

#[test]
fn writer_writes_low_bits_first() {
    let mut bytes = [0xffu8, 0xff];
    {
        let mut w = LsbBitWriter::new(&mut bytes, Endianness::Little);
        assert_eq!(w.cur_byte_index(), 0);
        w.write_bits(0b010, 3);
        assert_eq!(w.bits_left_in_cur_byte(), 5);
        w.write_bits(0, 5);
        assert_eq!(w.cur_byte_index(), 1);
        w.write_bits(0b1, 4);
    }
    assert_eq!(bytes, [0b0000_0010, 0b1111_0001]);
}

#[test]
fn writer_big_endian_starts_at_last_byte() {
    let mut bytes = [0u8, 0];
    {
        let mut w = LsbBitWriter::new(&mut bytes, Endianness::Big);
        assert_eq!(w.cur_byte_index(), 1);
        w.write_bits(0xab, 8);
        w.write_bits(0x3, 2);
    }
    assert_eq!(bytes, [0x03, 0xab]);
}

#[test]
fn copy_bits_across_byte_boundaries() {
    let src = [0xf0u8, 0x0f];
    let mut dst = [0u8; 3];
    {
        let mut r = LsbBitReader::new(&src, Endianness::Little);
        let mut w = LsbBitWriter::new(&mut dst, Endianness::Little);
        w.write_bits(0b101, 3);
        r.read_bits(2);
        _copy_bits(&mut r, &mut w, 12);
        assert_eq!(w.bits_left_in_cur_byte(), 1);
    }
    // bits 2..14 of the source (two clear, eight set, two clear) land at bits 3..15
    assert_eq!(dst, [0b1110_0101, 0b0001_1111, 0]);
}

#[test]
fn bitfield_of_relocation_info() {
    // an 8 bit type followed by a 24 bit symbol index, lsb first
    let ty = 2u8.binary_serialize_to_array(Endianness::Little);
    let symbol = 0x00abcdefu32.binary_serialize_to_array(Endianness::Little);
    let fields = vec![ty, symbol];
    let lengths = vec![8usize, 24];
    let mut buf = [0u8; 4];
    pack_bitfield(&fields, &lengths, &BitfieldBitOrder::LsbFirst, &mut buf, Endianness::Little);
    assert_eq!(u32::binary_deserialize(&buf, Endianness::Little).unwrap(), 0xabcdef02);
    let unpacked = unpack_bitfield(&buf, &vec![1, 4], &lengths, &BitfieldBitOrder::LsbFirst, Endianness::Little);
    assert_eq!(unpacked, fields);
    assert_eq!(u32::binary_deserialize(&unpacked[1], Endianness::Little).unwrap(), 0xabcdef);
}

#[test]
fn bitfield_msb_first_big_endian() {
    let a = 0x5u8.binary_serialize_to_array(Endianness::Big);
    let b = 0x1234u16.binary_serialize_to_array(Endianness::Big);
    let fields = vec![a, b];
    let lengths = vec![4usize, 12];
    let mut buf = [0u8; 2];
    pack_bitfield(&fields, &lengths, &BitfieldBitOrder::MsbFirst, &mut buf, Endianness::Big);
    // the last field takes the low 12 bits, the first field the high 4 bits
    assert_eq!(u16::binary_deserialize(&buf, Endianness::Big).unwrap(), 0x5234);
    let unpacked = unpack_bitfield(&buf, &vec![1, 2], &lengths, &BitfieldBitOrder::MsbFirst, Endianness::Big);
    assert_eq!(unpacked[0], vec![0x5]);
    assert_eq!(u16::binary_deserialize(&unpacked[1], Endianness::Big).unwrap(), 0x234);
}

#[test]
fn reader_position_is_the_sum_of_the_reads() {
    let bytes = [0x12u8, 0x34, 0x56];
    let mut little = LsbBitReader::new(&bytes, Endianness::Little);
    let mut big = LsbBitReader::new(&bytes, Endianness::Big);
    for amount in [3usize, 5, 2, 4] {
        little.read_bits(amount);
        big.read_bits(amount);
    }
    // 14 bits read: bit 6 of byte 1 of the stream.
    assert_eq!(little.cur_byte_index(), 1);
    assert_eq!(little.bits_left_in_cur_byte(), 2);
    assert_eq!(big.cur_byte_index(), 1);
    assert_eq!(big.bits_left_in_cur_byte(), 2);
    little.read_bits(2);
    big.read_bits(2);
    assert_eq!(little.cur_byte_index(), 2);
    assert_eq!(big.cur_byte_index(), 0);
    assert_eq!(little.bits_left_in_cur_byte(), 8);
}

#[test]
fn writer_position_is_the_sum_of_the_writes() {
    let mut bytes = [0u8; 3];
    {
        let mut w = LsbBitWriter::new(&mut bytes, Endianness::Big);
        for amount in [1usize, 7, 6] {
            w.write_bits(0, amount);
        }
        assert_eq!(w.cur_byte_index(), 1);
        assert_eq!(w.bits_left_in_cur_byte(), 2);
        w.write_bits(0b11, 2);
        assert_eq!(w.cur_byte_index(), 0);
        assert_eq!(w.bits_left_in_cur_byte(), 8);
    }
    assert_eq!(bytes, [0, 0b1100_0000, 0]);
}

#[test]
fn masks_select_the_bits_they_cover() {
    assert_eq!(get_bits_mask(3, 5), 0xf8);
    assert_eq!(get_bits_mask(0, 8), 0xff);
    assert_eq!(get_bits_mask(4, 0), 0);
    assert_eq!(get_bits_mask(2, 3), 0b0001_1100);
    for start in 0..8usize {
        for amount in 0..=(8 - start) {
            let mask = get_bits_mask(start, amount);
            assert_eq!(mask as u16, ((1u16 << amount) - 1) << start);
            for byte in 0..=255u8 {
                assert_eq!((byte & mask) >> start, get_bits_of_byte(byte, start, amount));
            }
        }
    }
}

#[test]
fn bitfield_values_come_back_modulo_their_bit_length() {
    let fields = vec![0x0bu8.binary_serialize_to_array(Endianness::Little), 0xffu8.binary_serialize_to_array(Endianness::Little)];
    let bit_lengths = vec![4usize, 4];
    let mut buf = [0u8; 1];
    pack_bitfield(&fields, &bit_lengths, &BitfieldBitOrder::LsbFirst, &mut buf, Endianness::Little);
    assert_eq!(buf, [0xfb]);
    let unpacked = unpack_bitfield(&buf, &vec![1, 1], &bit_lengths, &BitfieldBitOrder::LsbFirst, Endianness::Little);
    assert_eq!(unpacked, vec![vec![0x0b], vec![0x0f]]);
}
