use binary_serde::derive::{
    bitfield_length_in_bytes, check_field_bit_length, field_offsets, find_bit_length_attribute,
    is_enum_repr_type_sized_primitive_int, parse_field_bit_length, pascal_to_capital_snake_case,
    read_field_bit_lengths, AttributeShape, BitfieldError, MAX_FIELD_BIT_LENGTH,
};
use binary_serde::derive::{
    check_derive_shape, enum_repr_attribute, find_repr_attribute, DeriveError, ItemKind,
};

#[test]
fn capital_snake_case_of_variant_names() {
    assert_eq!(pascal_to_capital_snake_case("Direct"), "DIRECT");
    assert_eq!(pascal_to_capital_snake_case("PcRelative"), "PC_RELATIVE");
    assert_eq!(pascal_to_capital_snake_case("GotEntry"), "GOT_ENTRY");
    assert_eq!(pascal_to_capital_snake_case("aB"), "A_B");
    assert_eq!(pascal_to_capital_snake_case(""), "");
    assert_eq!(pascal_to_capital_snake_case("Straße"), "STRASSE");
}

#[test]
fn repr_types_that_name_sized_integers() {
    assert!(is_enum_repr_type_sized_primitive_int("u8"));
    assert!(is_enum_repr_type_sized_primitive_int("i32"));
    assert!(is_enum_repr_type_sized_primitive_int("u128"));
    assert!(!is_enum_repr_type_sized_primitive_int("usize"));
    assert!(!is_enum_repr_type_sized_primitive_int("u"));
    assert!(!is_enum_repr_type_sized_primitive_int("8u"));
    assert!(!is_enum_repr_type_sized_primitive_int("C"));
}

#[test]
fn field_bit_lengths_are_checked() {
    assert_eq!(MAX_FIELD_BIT_LENGTH, 32);
    assert_eq!(parse_field_bit_length("8"), Ok(8));
    assert_eq!(parse_field_bit_length("32"), Ok(32));
    assert_eq!(parse_field_bit_length("33"), Err(BitfieldError::BitLengthTooLarge { max_bit_length: 32 }));
    assert_eq!(parse_field_bit_length("eight"), Err(BitfieldError::InvalidBitLength));
    assert_eq!(parse_field_bit_length("-1"), Err(BitfieldError::InvalidBitLength));
    assert_eq!(check_field_bit_length(None), Err(BitfieldError::InvalidBitLength));
    assert_eq!(check_field_bit_length(Some(0)), Ok(0));
}

#[test]
fn bitfields_must_be_byte_aligned() {
    assert_eq!(bitfield_length_in_bytes(&vec![8, 24]), Ok(4));
    assert_eq!(bitfield_length_in_bytes(&vec![]), Ok(0));
    assert_eq!(bitfield_length_in_bytes(&vec![3, 4]), Err(BitfieldError::NotByteAligned { total_bit_length: 7 }));
}

#[test]
fn fields_follow_one_another() {
    assert_eq!(field_offsets(&vec![4, 1, 2]), vec![0, 4, 5]);
    assert_eq!(field_offsets(&vec![]), Vec::<usize>::new());
}

#[test]
fn every_sized_integer_repr_is_accepted() {
    for name in ["u8", "u16", "u32", "u64", "u128", "i8", "i16", "i32", "i64", "i128"] {
        assert!(is_enum_repr_type_sized_primitive_int(name), "{}", name);
    }
    assert!(!is_enum_repr_type_sized_primitive_int("isize"));
    assert!(!is_enum_repr_type_sized_primitive_int("u 8"));
    assert!(!is_enum_repr_type_sized_primitive_int("u-8"));
    assert!(is_enum_repr_type_sized_primitive_int("u+8"));
    assert!(is_enum_repr_type_sized_primitive_int("u4294967295"));
    assert!(!is_enum_repr_type_sized_primitive_int("u4294967296"));
}

#[test]
fn bit_length_text_is_an_unsigned_decimal() {
    assert_eq!(parse_field_bit_length("+5"), Ok(5));
    assert_eq!(parse_field_bit_length("007"), Ok(7));
    assert_eq!(parse_field_bit_length("0"), Ok(0));
    assert_eq!(parse_field_bit_length(""), Err(BitfieldError::InvalidBitLength));
    assert_eq!(parse_field_bit_length("+"), Err(BitfieldError::InvalidBitLength));
    assert_eq!(parse_field_bit_length(" 5"), Err(BitfieldError::InvalidBitLength));
    assert_eq!(parse_field_bit_length("5 "), Err(BitfieldError::InvalidBitLength));
    assert_eq!(
        parse_field_bit_length("99999999999999999999999"),
        Err(BitfieldError::InvalidBitLength)
    );
    assert_eq!(
        parse_field_bit_length("18446744073709551615"),
        Err(BitfieldError::BitLengthTooLarge { max_bit_length: 32 })
    );
}

fn attribute(name: &str, value: &str) -> AttributeShape {
    AttributeShape {
        is_outer: true,
        is_list: true,
        has_leading_colon: false,
        path_len: 1,
        first_segment_has_arguments: false,
        first_segment_name: name.to_string(),
        value: value.to_string(),
    }
}

#[test]
fn the_first_bits_attribute_counts() {
    let mut inner = attribute("bits", "4");
    inner.is_outer = false;
    let mut path = attribute("bits", "4");
    path.path_len = 2;
    let mut generic = attribute("bits", "4");
    generic.first_segment_has_arguments = true;
    let mut word = attribute("bits", "4");
    word.is_list = false;
    let attrs = vec![attribute("doc", "x"), inner, path, generic, word, attribute("bit", "1")];
    assert_eq!(find_bit_length_attribute(&attrs), None);
    let mut attrs = attrs;
    attrs.push(attribute("bits", "3"));
    attrs.push(attribute("bits", "9"));
    assert_eq!(find_bit_length_attribute(&attrs), Some(6));
}

#[test]
fn every_field_needs_a_valid_bit_length() {
    let fields = vec![
        vec![attribute("doc", "a"), attribute("bits", "3")],
        vec![attribute("bits", "5")],
    ];
    assert_eq!(read_field_bit_lengths(&fields), Ok(vec![(1, 3), (0, 5)]));
    let fields = vec![vec![attribute("bits", "3")], vec![attribute("doc", "b")], vec![attribute("bits", "x")]];
    assert_eq!(read_field_bit_lengths(&fields), Err((1, BitfieldError::MissingBitLengthAttribute)));
    let fields = vec![vec![attribute("bits", "40")], vec![attribute("doc", "b")]];
    assert_eq!(
        read_field_bit_lengths(&fields),
        Err((0, BitfieldError::BitLengthTooLarge { max_bit_length: 32 }))
    );
    let fields = vec![vec![attribute("bits", "1")], vec![attribute("bits", "three")]];
    assert_eq!(read_field_bit_lengths(&fields), Err((1, BitfieldError::InvalidBitLength)));
    assert_eq!(read_field_bit_lengths(&vec![]), Ok(vec![]));
}

#[test]
fn a_leading_colon_counts_for_bits_but_not_for_repr() {
    let mut bits = attribute("bits", "2");
    bits.has_leading_colon = true;
    assert_eq!(find_bit_length_attribute(&vec![bits]), Some(0));
    let mut repr = attribute("repr", "u8");
    repr.has_leading_colon = true;
    assert_eq!(find_repr_attribute(&vec![repr]), None);
}

#[test]
fn the_first_repr_attribute_gives_the_tag_type() {
    let attrs = vec![attribute("derive", "Debug"), attribute("repr", "u16"), attribute("repr", "C")];
    assert_eq!(find_repr_attribute(&attrs), Some(1));
    assert_eq!(enum_repr_attribute(&attrs), Ok(1));
    let attrs = vec![attribute("repr", "C"), attribute("repr", "u16")];
    assert_eq!(enum_repr_attribute(&attrs), Err(DeriveError::ReprNotSizedInteger));
    let attrs = vec![attribute("derive", "Debug")];
    assert_eq!(find_repr_attribute(&attrs), None);
    assert_eq!(enum_repr_attribute(&attrs), Err(DeriveError::MissingReprAttribute));
    let mut inner = attribute("repr", "u8");
    inner.is_outer = false;
    assert_eq!(enum_repr_attribute(&vec![inner]), Err(DeriveError::MissingReprAttribute));
}

#[test]
fn derive_applies_to_structs_and_unit_enums() {
    assert_eq!(check_derive_shape(ItemKind::Struct, &vec![]), Ok(()));
    assert_eq!(check_derive_shape(ItemKind::Enum, &vec![false, false]), Ok(()));
    assert_eq!(check_derive_shape(ItemKind::Enum, &vec![]), Ok(()));
    assert_eq!(
        check_derive_shape(ItemKind::Enum, &vec![false, true]),
        Err(DeriveError::EnumVariantHoldsData)
    );
    assert_eq!(check_derive_shape(ItemKind::Union, &vec![]), Err(DeriveError::UnionNotSupported));
}
