//! The decisions that the derive and bitfield macros make on plain values: how
//! a variant name becomes a constant name, which `repr` types an enum may use,
//! how the bit lengths of a bitfield are read and checked, and where each field
//! of a struct is placed.
use vstd::prelude::*;
use crate::bitfield::sum_lengths;

verus! {

/// The largest bit length that a single field of a bitfield may have.
pub const MAX_FIELD_BIT_LENGTH: usize = 32;

/// What is wrong with the fields of a bitfield.
#[derive(Debug, PartialEq, Eq, Structural)]
pub enum BitfieldError {
    /// A field has no `#[bits(...)]` attribute.
    MissingBitLengthAttribute,
    /// The `#[bits(...)]` attribute of a field does not hold an unsigned integer.
    InvalidBitLength,
    /// A field is longer than `MAX_FIELD_BIT_LENGTH` bits.
    BitLengthTooLarge { max_bit_length: usize },
    /// The fields together are not a whole number of bytes long.
    NotByteAligned { total_bit_length: usize },
}

/// Whether `char::is_uppercase` holds of `c`.
pub uninterp spec fn char_is_uppercase(c: char) -> bool;

/// The characters that `char::to_uppercase` yields for `c`.
pub uninterp spec fn char_to_uppercase(c: char) -> Seq<char>;

/// Whether `c` is one of the ASCII digits `0` to `9`.
pub open spec fn is_decimal_digit(c: char) -> bool {
    '0' <= c && c <= '9'
}

/// The number that the decimal digits `digits` write, most significant first.
pub open spec fn decimal_value(digits: Seq<char>) -> nat
    decreases digits.len(),
{
    if digits.len() == 0 {
        0
    } else {
        decimal_value(digits.drop_last()) * 10 + (digits.last() as nat - '0' as nat) as nat
    }
}

/// The digits of an unsigned number written as text: the text after an
/// optional leading `+`.
pub open spec fn unsigned_digits(s: Seq<char>) -> Seq<char> {
    if s.len() > 0 && s[0] == '+' {
        s.drop_first()
    } else {
        s
    }
}

/// What parsing `s` as an unsigned decimal integer of at most `max` gives:
/// an optional `+` followed by one or more ASCII digits, whose value is at
/// most `max`; anything else, a sign `-` or white space included, is refused.
pub open spec fn parse_unsigned(s: Seq<char>, max: nat) -> Option<nat> {
    let digits = unsigned_digits(s);
    if digits.len() > 0 && (forall|i: int| 0 <= i < digits.len() ==> is_decimal_digit(
        #[trigger] digits[i],
    )) && decimal_value(digits) <= max {
        Some(decimal_value(digits))
    } else {
        None
    }
}

/// Calls `char::is_uppercase`, which tells whether `c` has the Unicode
/// property `Uppercase`.
#[verifier::external_body]
fn is_uppercase(c: char) -> (r: bool)
    ensures
        r == char_is_uppercase(c),
{
    c.is_uppercase()
}

/// Calls `char::to_uppercase` and collects the characters that it yields: the
/// uppercase mapping of `c`, which is one or more characters long.
#[verifier::external_body]
fn to_uppercase(c: char) -> (r: Vec<char>)
    ensures
        r@ == char_to_uppercase(c),
        r@.len() >= 1,
{
    c.to_uppercase().collect()
}

/// Calls `String::push`, which appends `c` to `s`.
#[verifier::external_body]
fn push_char(s: &mut String, c: char)
    ensures
        final(s)@ == old(s)@.push(c),
{
    s.push(c)
}

/// A prefix of a string of decimal digits writes a number no larger than
/// the whole string does.
proof fn lemma_decimal_value_prefix(digits: Seq<char>, k: int)
    requires
        0 <= k <= digits.len(),
        forall|i: int| 0 <= i < digits.len() ==> is_decimal_digit(#[trigger] digits[i]),
    ensures
        decimal_value(digits.take(k)) <= decimal_value(digits),
    decreases digits.len(),
{
    if k < digits.len() {
        let shorter = digits.drop_last();
        assert(shorter.take(k) =~= digits.take(k));
        lemma_decimal_value_prefix(shorter, k);
    } else {
        assert(digits.take(k) =~= digits);
    }
}

/// Parses `s` as an unsigned decimal integer of at most `max`: an optional
/// `+` followed by one or more ASCII digits.
fn parse_decimal(s: &str, max: usize) -> (r: Option<usize>)
    ensures
        r == match parse_unsigned(s@, max as nat) {
            Some(v) => Some(v as usize),
            None => None::<usize>,
        },
{
    let n = s.unicode_len();
    let start: usize = if n > 0 && s.get_char(0) == '+' {
        1
    } else {
        0
    };
    let ghost digits = unsigned_digits(s@);
    assert(digits =~= s@.subrange(start as int, n as int));
    if start == n {
        return None;
    }
    let mut value: u128 = 0;
    let mut i: usize = start;
    while i < n
        invariant
            start <= i <= n,
            start < n,
            n == s@.len(),
            digits == unsigned_digits(s@),
            digits == s@.subrange(start as int, n as int),
            forall|k: int| 0 <= k < i - start ==> is_decimal_digit(#[trigger] digits[k]),
            value == decimal_value(digits.take(i - start)),
            value <= max,
        decreases n - i,
    {
        let c = s.get_char(i);
        assert(digits[i - start] == c);
        if !('0' <= c && c <= '9') {
            return None;
        }
        let d = (c as u32 - '0' as u32) as u128;
        assert(digits.take(i - start + 1).drop_last() =~= digits.take(i - start));
        value = value * 10 + d;
        if value > max as u128 {
            proof {
                if forall|k: int| 0 <= k < digits.len() ==> is_decimal_digit(#[trigger] digits[k]) {
                    lemma_decimal_value_prefix(digits, i - start + 1);
                }
            }
            return None;
        }
        i = i + 1;
    }
    assert(digits.take(n - start) =~= digits);
    Some(value as usize)
}

/// Whether `str::parse::<u32>` would succeed on `s`: an optional `+`
/// followed by decimal digits only, of a value that fits in a `u32`.
fn parses_as_u32(s: &str) -> (r: bool)
    ensures
        r == parse_unsigned(s@, u32::MAX as nat) is Some,
{
    parse_decimal(s, 0xffff_ffff).is_some()
}

/// `s` in capital snake case: each uppercase character but the first gets an
/// underscore before it, and every character is put in uppercase.
pub open spec fn capital_snake_case(s: Seq<char>) -> Seq<char>
    decreases s.len(),
{
    if s.len() == 0 {
        Seq::empty()
    } else {
        let i = s.len() - 1;
        let c = s[i];
        capital_snake_case(s.take(i)) + (if char_is_uppercase(c) && i != 0 {
            seq!['_']
        } else {
            Seq::empty()
        }) + char_to_uppercase(c)
    }
}

/// Converts a PascalCase string to a CAPITAL_SNAKE_CASE string.
pub fn pascal_to_capital_snake_case(s: &str) -> (r: String)
    ensures
        r@ == capital_snake_case(s@),
{
    let mut result = String::new();
    let n = s.unicode_len();
    let mut i: usize = 0;
    while i < n
        invariant
            i <= n,
            n == s@.len(),
            result@ == capital_snake_case(s@.take(i as int)),
        decreases n - i,
    {
        let c = s.get_char(i);
        if is_uppercase(c) && i != 0 {
            push_char(&mut result, '_');
        }
        let upper = to_uppercase(c);
        let mut j: usize = 0;
        let ghost middle = result@;
        while j < upper.len()
            invariant
                j <= upper@.len(),
                result@ == middle + upper@.take(j as int),
            decreases upper@.len() - j,
        {
            push_char(&mut result, upper[j]);
            assert(upper@.take(j as int).push(upper@[j as int]) =~= upper@.take(j + 1));
            j = j + 1;
        }
        assert(s@.take(i + 1).take(i as int) =~= s@.take(i as int));
        assert(upper@.take(upper@.len() as int) =~= upper@);
        i = i + 1;
    }
    assert(s@.take(n as int) =~= s@);
    result
}

/// Whether `c` is an ASCII letter.
pub open spec fn is_ascii_letter(c: char) -> bool {
    ('A' <= c && c <= 'Z') || ('a' <= c && c <= 'z')
}

/// Whether the text inside an enum's `#[repr(...)]` attribute names an
/// explicitly sized primitive integer type: a letter followed by a number.
pub fn is_enum_repr_type_sized_primitive_int(repr_type: &str) -> (r: bool)
    requires
        repr_type@.len() > 0,
    ensures
        r == (is_ascii_letter(repr_type@[0]) && parse_unsigned(
            repr_type@.subrange(1, repr_type@.len() as int),
            u32::MAX as nat,
        ) is Some),
{
    let first = repr_type.get_char(0);
    if !(('A' <= first && first <= 'Z') || ('a' <= first && first <= 'z')) {
        return false;
    }
    let n = repr_type.unicode_len();
    parses_as_u32(repr_type.substring_char(1, n))
}

/// Checks the bit length that the `#[bits(...)]` attribute of a field gives,
/// once read as a number (`None` where it is not one).
pub fn check_field_bit_length(parsed: Option<usize>) -> (r: Result<usize, BitfieldError>)
    ensures
        r == match parsed {
            None => Err(BitfieldError::InvalidBitLength),
            Some(v) => if v > MAX_FIELD_BIT_LENGTH {
                Err(BitfieldError::BitLengthTooLarge { max_bit_length: MAX_FIELD_BIT_LENGTH })
            } else {
                Ok(v)
            },
        },
{
    match parsed {
        None => Err(BitfieldError::InvalidBitLength),
        Some(v) => if v > MAX_FIELD_BIT_LENGTH {
            Err(BitfieldError::BitLengthTooLarge { max_bit_length: MAX_FIELD_BIT_LENGTH })
        } else {
            Ok(v)
        },
    }
}

/// The bit length that the text of a `#[bits(...)]` attribute gives: an
/// unsigned integer of at most `MAX_FIELD_BIT_LENGTH`.
pub open spec fn bit_length_from_text(text: Seq<char>) -> Result<usize, BitfieldError> {
    match parse_unsigned(text, usize::MAX as nat) {
        None => Err(BitfieldError::InvalidBitLength),
        Some(v) => if v > MAX_FIELD_BIT_LENGTH {
            Err(BitfieldError::BitLengthTooLarge { max_bit_length: MAX_FIELD_BIT_LENGTH })
        } else {
            Ok(v as usize)
        },
    }
}

/// Reads the bit length of a field from the text of its `#[bits(...)]` attribute.
pub fn parse_field_bit_length(text: &str) -> (r: Result<usize, BitfieldError>)
    ensures
        r == bit_length_from_text(text@),
{
    check_field_bit_length(parse_decimal(text, usize::MAX))
}

/// What the derive and bitfield macros read of one attribute.
pub struct AttributeShape {
    /// Whether it is an outer attribute, `#[...]` rather than `#![...]`.
    pub is_outer: bool,
    /// Whether it has the form `path(tokens)`.
    pub is_list: bool,
    /// Whether its path starts with `::`.
    pub has_leading_colon: bool,
    /// How many segments its path has.
    pub path_len: usize,
    /// Whether the first segment of its path has generic arguments.
    pub first_segment_has_arguments: bool,
    /// The name of the first segment of its path.
    pub first_segment_name: String,
    /// The text of the tokens inside its brackets.
    pub value: String,
}

/// The attributes that the macros look for.
#[derive(Clone, Copy, PartialEq, Eq, Structural)]
pub enum AttributeKind {
    /// `#[bits(...)]` on a field of a bitfield.
    BitLength,
    /// `#[repr(...)]` on an enum.
    Repr,
}

/// The name of the attributes of `kind`.
pub open spec fn attribute_name(kind: AttributeKind) -> Seq<char> {
    match kind {
        AttributeKind::BitLength => seq!['b', 'i', 't', 's'],
        AttributeKind::Repr => seq!['r', 'e', 'p', 'r'],
    }
}

/// Whether `a` is an attribute of `kind`: an outer attribute of the form
/// `name(tokens)` whose path is the single segment `name`, with no generic
/// arguments; a `#[repr(...)]` path may not start with `::` either.
pub open spec fn is_attribute_of_kind(a: AttributeShape, kind: AttributeKind) -> bool {
    &&& a.is_outer
    &&& a.is_list
    &&& a.path_len == 1
    &&& !a.first_segment_has_arguments
    &&& a.first_segment_name@ == attribute_name(kind)
    &&& (kind == AttributeKind::Repr ==> !a.has_leading_colon)
}

/// The index of the first attribute of `kind` among `attrs`, if any.
pub open spec fn first_attribute_of_kind(attrs: Seq<AttributeShape>, kind: AttributeKind) -> Option<
    nat,
>
    decreases attrs.len(),
{
    if attrs.len() == 0 {
        None
    } else {
        match first_attribute_of_kind(attrs.drop_last(), kind) {
            Some(i) => Some(i),
            None => if is_attribute_of_kind(attrs.last(), kind) {
                Some((attrs.len() - 1) as nat)
            } else {
                None
            },
        }
    }
}

/// What the bitfield macro reads from the attributes of one field: the index
/// of its first `#[bits(...)]` attribute and the bit length that it gives.
pub open spec fn field_bit_length(attrs: Seq<AttributeShape>) -> Result<(usize, usize), BitfieldError> {
    match first_attribute_of_kind(attrs, AttributeKind::BitLength) {
        None => Err(BitfieldError::MissingBitLengthAttribute),
        Some(i) => match bit_length_from_text(attrs[i as int].value@) {
            Ok(v) => Ok((i as usize, v)),
            Err(e) => Err(e),
        },
    }
}

/// What the bitfield macro reads from the attributes of all the fields, in
/// order: every field must have a valid `#[bits(...)]` attribute, and the
/// first field that has none, or an invalid one, gives the error, with its
/// index.
pub open spec fn fields_bit_lengths(fields: Seq<Vec<AttributeShape>>) -> Result<
    Seq<(usize, usize)>,
    (usize, BitfieldError),
>
    decreases fields.len(),
{
    if fields.len() == 0 {
        Ok(Seq::empty())
    } else {
        match fields_bit_lengths(fields.drop_last()) {
            Err(e) => Err(e),
            Ok(prev) => match field_bit_length(fields.last()@) {
                Err(e) => Err(((fields.len() - 1) as usize, e)),
                Ok(found) => Ok(prev.push(found)),
            },
        }
    }
}

/// A first attribute of `kind` found in a prefix of `attrs` is the first one
/// of `attrs`.
proof fn lemma_first_attribute_prefix(attrs: Seq<AttributeShape>, kind: AttributeKind, k: int)
    requires
        0 <= k <= attrs.len(),
        first_attribute_of_kind(attrs.take(k), kind) is Some,
    ensures
        first_attribute_of_kind(attrs, kind) == first_attribute_of_kind(attrs.take(k), kind),
    decreases attrs.len(),
{
    if k < attrs.len() {
        let shorter = attrs.drop_last();
        assert(shorter.take(k) =~= attrs.take(k));
        lemma_first_attribute_prefix(shorter, kind, k);
    } else {
        assert(attrs.take(k) =~= attrs);
    }
}

/// Whether two strings have the same characters.
fn same_text(a: &str, b: &str) -> (r: bool)
    ensures
        r == (a@ == b@),
{
    let n = a.unicode_len();
    if n != b.unicode_len() {
        return false;
    }
    let mut i: usize = 0;
    while i < n
        invariant
            i <= n,
            n == a@.len(),
            n == b@.len(),
            a@.take(i as int) == b@.take(i as int),
        decreases n - i,
    {
        if a.get_char(i) != b.get_char(i) {
            assert(a@[i as int] != b@[i as int]);
            return false;
        }
        assert(a@.take(i + 1) =~= a@.take(i as int).push(a@[i as int]));
        assert(b@.take(i + 1) =~= b@.take(i as int).push(b@[i as int]));
        i = i + 1;
    }
    assert(a@.take(n as int) =~= a@);
    assert(b@.take(n as int) =~= b@);
    true
}

/// Whether `a` is an attribute of `kind`.
fn check_attribute_kind(a: &AttributeShape, kind: AttributeKind) -> (r: bool)
    ensures
        r == is_attribute_of_kind(*a, kind),
{
    let name = match kind {
        AttributeKind::BitLength => "bits",
        AttributeKind::Repr => "repr",
    };
    proof {
        reveal_strlit("bits");
        reveal_strlit("repr");
        assert("bits"@ =~= seq!['b', 'i', 't', 's']);
        assert("repr"@ =~= seq!['r', 'e', 'p', 'r']);
    }
    let plain_path = match kind {
        AttributeKind::BitLength => true,
        AttributeKind::Repr => !a.has_leading_colon,
    };
    a.is_outer && a.is_list && a.path_len == 1 && !a.first_segment_has_arguments && plain_path
        && same_text(a.first_segment_name.as_str(), name)
}

/// Finds the first attribute of `kind` among `attrs`.
fn find_attribute(attrs: &Vec<AttributeShape>, kind: AttributeKind) -> (r: Option<usize>)
    ensures
        match r {
            Some(i) => i < attrs@.len() && first_attribute_of_kind(attrs@, kind) == Some(i as nat),
            None => first_attribute_of_kind(attrs@, kind) is None,
        },
{
    let mut i: usize = 0;
    while i < attrs.len()
        invariant
            i <= attrs@.len(),
            first_attribute_of_kind(attrs@.take(i as int), kind) is None,
        decreases attrs@.len() - i,
    {
        assert(attrs@.take(i + 1).drop_last() =~= attrs@.take(i as int));
        if check_attribute_kind(&attrs[i], kind) {
            proof {
                lemma_first_attribute_prefix(attrs@, kind, i + 1);
            }
            return Some(i);
        }
        i = i + 1;
    }
    assert(attrs@.take(attrs@.len() as int) =~= attrs@);
    None
}

/// Finds the first `#[bits(...)]` attribute among `attrs`.
pub fn find_bit_length_attribute(attrs: &Vec<AttributeShape>) -> (r: Option<usize>)
    ensures
        match r {
            Some(i) => i < attrs@.len() && first_attribute_of_kind(attrs@, AttributeKind::BitLength)
                == Some(i as nat),
            None => first_attribute_of_kind(attrs@, AttributeKind::BitLength) is None,
        },
{
    find_attribute(attrs, AttributeKind::BitLength)
}

/// Finds the first `#[repr(...)]` attribute among `attrs`.
pub fn find_repr_attribute(attrs: &Vec<AttributeShape>) -> (r: Option<usize>)
    ensures
        match r {
            Some(i) => i < attrs@.len() && first_attribute_of_kind(attrs@, AttributeKind::Repr) == Some(
                i as nat,
            ),
            None => first_attribute_of_kind(attrs@, AttributeKind::Repr) is None,
        },
{
    find_attribute(attrs, AttributeKind::Repr)
}

/// Reads the bit length of each field of a bitfield from its attributes: for
/// each field, the index of its `#[bits(...)]` attribute and the bit length;
/// or the index of the first field without a valid one, and what is wrong.
pub fn read_field_bit_lengths(fields: &Vec<Vec<AttributeShape>>) -> (r: Result<
    Vec<(usize, usize)>,
    (usize, BitfieldError),
>)
    ensures
        match r {
            Ok(found) => fields_bit_lengths(fields@) == Ok::<
                Seq<(usize, usize)>,
                (usize, BitfieldError),
            >(found@),
            Err(e) => fields_bit_lengths(fields@) == Err::<Seq<(usize, usize)>, (usize, BitfieldError)>(
                e,
            ),
        },
{
    let mut found: Vec<(usize, usize)> = Vec::new();
    let mut k: usize = 0;
    while k < fields.len()
        invariant
            k <= fields@.len(),
            fields_bit_lengths(fields@.take(k as int)) == Ok::<
                Seq<(usize, usize)>,
                (usize, BitfieldError),
            >(found@),
        decreases fields@.len() - k,
    {
        let ghost prefix = fields@.take(k + 1);
        assert(prefix.drop_last() =~= fields@.take(k as int));
        let attrs = &fields[k];
        let index = match find_bit_length_attribute(attrs) {
            Some(index) => index,
            None => {
                proof {
                    lemma_fields_bit_lengths_prefix_err(fields@, k + 1);
                }
                return Err((k, BitfieldError::MissingBitLengthAttribute));
            },
        };
        let bit_length = match parse_field_bit_length(attrs[index].value.as_str()) {
            Ok(v) => v,
            Err(e) => {
                proof {
                    lemma_fields_bit_lengths_prefix_err(fields@, k + 1);
                }
                return Err((k, e));
            },
        };
        found.push((index, bit_length));
        k = k + 1;
    }
    assert(fields@.take(fields@.len() as int) =~= fields@);
    Ok(found)
}

/// An error that a prefix of the fields meets is the error of all of them.
proof fn lemma_fields_bit_lengths_prefix_err(fields: Seq<Vec<AttributeShape>>, k: int)
    requires
        0 <= k <= fields.len(),
        fields_bit_lengths(fields.take(k)) is Err,
    ensures
        fields_bit_lengths(fields) == fields_bit_lengths(fields.take(k)),
    decreases fields.len(),
{
    if k < fields.len() {
        let shorter = fields.drop_last();
        assert(shorter.take(k) =~= fields.take(k));
        lemma_fields_bit_lengths_prefix_err(shorter, k);
    } else {
        assert(fields.take(k) =~= fields);
    }
}

/// What `#[derive(BinarySerde)]` is applied to.
#[derive(Clone, Copy, PartialEq, Eq, Structural)]
pub enum ItemKind {
    Struct,
    Enum,
    Union,
}

/// Why `#[derive(BinarySerde)]` cannot implement the trait for an item.
#[derive(Debug, PartialEq, Eq, Structural)]
pub enum DeriveError {
    /// The item is a union.
    UnionNotSupported,
    /// A variant of the enum holds data.
    EnumVariantHoldsData,
    /// The enum has no `#[repr(...)]` attribute.
    MissingReprAttribute,
    /// The enum's `#[repr(...)]` attribute does not name an explicitly sized
    /// primitive integer type.
    ReprNotSizedInteger,
}

/// Whether `#[derive(BinarySerde)]` applies to an item of `kind` whose
/// variants (for an enum) hold data where `variant_has_data` is set: structs
/// do, enums whose variants are all units do, unions do not.
pub open spec fn derive_shape(kind: ItemKind, variant_has_data: Seq<bool>) -> Result<(), DeriveError> {
    match kind {
        ItemKind::Struct => Ok(()),
        ItemKind::Union => Err(DeriveError::UnionNotSupported),
        ItemKind::Enum => if exists|i: int| 0 <= i < variant_has_data.len() && #[trigger] variant_has_data[i] {
            Err(DeriveError::EnumVariantHoldsData)
        } else {
            Ok(())
        },
    }
}

/// Checks that `#[derive(BinarySerde)]` applies to an item of `kind`.
pub fn check_derive_shape(kind: ItemKind, variant_has_data: &Vec<bool>) -> (r: Result<(), DeriveError>)
    ensures
        r == derive_shape(kind, variant_has_data@),
{
    match kind {
        ItemKind::Struct => Ok(()),
        ItemKind::Union => Err(DeriveError::UnionNotSupported),
        ItemKind::Enum => {
            let mut i: usize = 0;
            while i < variant_has_data.len()
                invariant
                    kind == ItemKind::Enum,
                    i <= variant_has_data@.len(),
                    forall|j: int| 0 <= j < i ==> !#[trigger] variant_has_data@[j],
                decreases variant_has_data@.len() - i,
            {
                if variant_has_data[i] {
                    return Err(DeriveError::EnumVariantHoldsData);
                }
                i = i + 1;
            }
            Ok(())
        },
    }
}

/// What an enum's attributes give for its `#[repr(...)]` type: the index of
/// its first `#[repr(...)]` attribute, whose text must name an explicitly
/// sized primitive integer type.
pub open spec fn enum_repr(attrs: Seq<AttributeShape>) -> Result<usize, DeriveError> {
    match first_attribute_of_kind(attrs, AttributeKind::Repr) {
        None => Err(DeriveError::MissingReprAttribute),
        Some(i) => {
            let text = attrs[i as int].value@;
            if is_ascii_letter(text[0]) && parse_unsigned(
                text.subrange(1, text.len() as int),
                u32::MAX as nat,
            ) is Some {
                Ok(i as usize)
            } else {
                Err(DeriveError::ReprNotSizedInteger)
            }
        },
    }
}

/// Finds an enum's `#[repr(...)]` attribute and checks that it names an
/// explicitly sized primitive integer type; its text must not be empty.
pub fn enum_repr_attribute(attrs: &Vec<AttributeShape>) -> (r: Result<usize, DeriveError>)
    requires
        first_attribute_of_kind(attrs@, AttributeKind::Repr) matches Some(i) ==> attrs@[i as int].value@.len()
            > 0,
    ensures
        r == enum_repr(attrs@),
{
    match find_repr_attribute(attrs) {
        None => Err(DeriveError::MissingReprAttribute),
        Some(i) => {
            if is_enum_repr_type_sized_primitive_int(attrs[i].value.as_str()) {
                Ok(i)
            } else {
                Err(DeriveError::ReprNotSizedInteger)
            }
        },
    }
}

/// The length in bytes of a bitfield whose fields have `bit_lengths`, which
/// must add up to a whole number of bytes.
pub fn bitfield_length_in_bytes(bit_lengths: &Vec<usize>) -> (r: Result<usize, BitfieldError>)
    requires
        sum_lengths(bit_lengths@) <= usize::MAX,
    ensures
        sum_lengths(bit_lengths@) % 8 == 0 ==> r == Ok::<usize, BitfieldError>(
            (sum_lengths(bit_lengths@) / 8) as usize,
        ),
        sum_lengths(bit_lengths@) % 8 != 0 ==> r == Err::<usize, BitfieldError>(
            BitfieldError::NotByteAligned { total_bit_length: sum_lengths(bit_lengths@) as usize },
        ),
{
    let total = total_length(bit_lengths);
    if total % 8 != 0 {
        Err(BitfieldError::NotByteAligned { total_bit_length: total })
    } else {
        Ok(total / 8)
    }
}

/// The sum of `lengths`.
fn total_length(lengths: &Vec<usize>) -> (r: usize)
    requires
        sum_lengths(lengths@) <= usize::MAX,
    ensures
        r == sum_lengths(lengths@),
{
    let mut total: usize = 0;
    let mut i: usize = 0;
    while i < lengths.len()
        invariant
            i <= lengths@.len(),
            total == sum_lengths(lengths@.take(i as int)),
            sum_lengths(lengths@) <= usize::MAX,
        decreases lengths@.len() - i,
    {
        proof {
            crate::bitfield::lemma_sum_lengths_take(lengths@, i as int);
            crate::bitfield::lemma_sum_lengths_monotonic(lengths@, i + 1, lengths@.len() as int);
            assert(lengths@.take(lengths@.len() as int) =~= lengths@);
        }
        total = total + lengths[i];
        i = i + 1;
    }
    assert(lengths@.take(lengths@.len() as int) =~= lengths@);
    total
}

/// The offset of each field of a struct in its serialization, given the
/// serialized size of each field: every field follows the one before it.
pub fn field_offsets(sizes: &Vec<usize>) -> (r: Vec<usize>)
    requires
        sum_lengths(sizes@) <= usize::MAX,
    ensures
        r@.len() == sizes@.len(),
        forall|i: int| 0 <= i < sizes@.len() ==> r@[i] == sum_lengths(#[trigger] sizes@.take(i)),
{
    let mut r: Vec<usize> = Vec::new();
    let mut total: usize = 0;
    let mut i: usize = 0;
    while i < sizes.len()
        invariant
            i <= sizes@.len(),
            r@.len() == i,
            total == sum_lengths(sizes@.take(i as int)),
            sum_lengths(sizes@) <= usize::MAX,
            forall|k: int| 0 <= k < i ==> r@[k] == sum_lengths(#[trigger] sizes@.take(k)),
        decreases sizes@.len() - i,
    {
        proof {
            crate::bitfield::lemma_sum_lengths_take(sizes@, i as int);
            crate::bitfield::lemma_sum_lengths_monotonic(sizes@, i + 1, sizes@.len() as int);
            assert(sizes@.take(sizes@.len() as int) =~= sizes@);
        }
        r.push(total);
        total = total + sizes[i];
        i = i + 1;
    }
    r
}


/// How unsigned decimal text is read, one character at a time: the empty text
/// and a lone `+` are refused; a leading `+` is skipped; a leading `-` is
/// refused; a single digit is its value; a digit appended to valid digits
/// multiplies their value by ten and adds its own; any other character, and
/// a value above the maximum, is refused.
pub proof fn lemma_parse_unsigned_steps(digits: Seq<char>, c: char, max: nat)
    ensures
        parse_unsigned(Seq::empty(), max) is None,
        parse_unsigned(seq!['+'], max) is None,
        digits.len() > 0 && digits[0] != '+' ==> parse_unsigned(seq!['+'] + digits, max)
            == parse_unsigned(digits, max),
        parse_unsigned(seq!['-'] + digits, max) is None,
        !is_decimal_digit(c) ==> parse_unsigned(digits.push(c), max) is None,
        is_decimal_digit(c) ==> parse_unsigned(seq![c], max) == if (c as nat - '0' as nat) <= max {
            Some((c as nat - '0' as nat) as nat)
        } else {
            None::<nat>
        },
        digits.len() > 0 && digits[0] != '+' && is_decimal_digit(c) ==> parse_unsigned(
            digits.push(c),
            max,
        ) == match parse_unsigned(digits, max) {
            Some(x) => if x * 10 + (c as nat - '0' as nat) <= max {
                Some((x * 10 + (c as nat - '0' as nat)) as nat)
            } else {
                None::<nat>
            },
            None => None::<nat>,
        },
{
    let plus = seq!['+'] + digits;
    assert(plus.drop_first() =~= digits);
    let minus = seq!['-'] + digits;
    assert(minus[0] == '-');
    let pushed = digits.push(c);
    assert(pushed[pushed.len() - 1] == c);
    if pushed.len() > 1 && pushed[0] == '+' {
        assert(unsigned_digits(pushed) =~= pushed.drop_first());
        assert(unsigned_digits(pushed)[unsigned_digits(pushed).len() - 1] == c);
    }
    if is_decimal_digit(c) {
        let single = seq![c];
        assert(single.drop_last() =~= Seq::<char>::empty());
        assert(unsigned_digits(single) == single);
        assert(decimal_value(single) == (c as nat - '0' as nat) as nat);
        assert(forall|i: int| 0 <= i < single.len() ==> is_decimal_digit(#[trigger] single[i]));
    }
    if digits.len() > 0 && digits[0] != '+' && is_decimal_digit(c) {
        assert(unsigned_digits(pushed) == pushed);
        assert(pushed.drop_last() =~= digits);
        if parse_unsigned(digits, max) is None {
            if forall|i: int| 0 <= i < digits.len() ==> is_decimal_digit(#[trigger] digits[i]) {
                assert(decimal_value(pushed) >= decimal_value(digits));
            } else {
                let k = choose|i: int| 0 <= i < digits.len() && !is_decimal_digit(#[trigger] digits[i]);
                assert(pushed[k] == digits[k]);
            }
        }
    }
}

/// The attribute of a kind that is found is the first one: it is of that
/// kind and none before it is; where none is found, none is of that kind.
pub proof fn lemma_first_attribute_is_first(attrs: Seq<AttributeShape>, kind: AttributeKind)
    ensures
        first_attribute_of_kind(attrs, kind) matches Some(i) ==> {
            &&& i < attrs.len()
            &&& is_attribute_of_kind(attrs[i as int], kind)
            &&& forall|j: int| 0 <= j < i ==> !is_attribute_of_kind(#[trigger] attrs[j], kind)
        },
        first_attribute_of_kind(attrs, kind) is None ==> forall|j: int|
            0 <= j < attrs.len() ==> !is_attribute_of_kind(#[trigger] attrs[j], kind),
    decreases attrs.len(),
{
    if attrs.len() > 0 {
        let shorter = attrs.drop_last();
        let n = shorter.len() as int;
        lemma_first_attribute_is_first(shorter, kind);
        match first_attribute_of_kind(shorter, kind) {
            Some(i) => {
                assert(attrs[i as int] == shorter[i as int]);
                assert forall|j: int| 0 <= j < i implies !is_attribute_of_kind(
                    #[trigger] attrs[j],
                    kind,
                ) by {
                    assert(attrs[j] == shorter[j]);
                    assert(!is_attribute_of_kind(shorter[j], kind));
                }
            },
            None => {
                assert forall|j: int| 0 <= j < n implies !is_attribute_of_kind(
                    #[trigger] attrs[j],
                    kind,
                ) by {
                    assert(attrs[j] == shorter[j]);
                    assert(!is_attribute_of_kind(shorter[j], kind));
                }
            },
        }
    }
}

/// The bit lengths that are read are one per field, each the one that the
/// field's attributes give; where reading fails, it fails at the first field
/// whose attributes give no valid bit length, with that field's error.
pub proof fn lemma_fields_bit_lengths_per_field(fields: Seq<Vec<AttributeShape>>)
    requires
        fields.len() <= usize::MAX,
    ensures
        fields_bit_lengths(fields) matches Ok(found) ==> {
            &&& found.len() == fields.len()
            &&& forall|k: int|
                0 <= k < fields.len() ==> field_bit_length(#[trigger] fields[k]@) == Ok::<
                    (usize, usize),
                    BitfieldError,
                >(found[k])
        },
        fields_bit_lengths(fields) matches Err((k, e)) ==> {
            &&& k < fields.len()
            &&& field_bit_length(fields[k as int]@) == Err::<(usize, usize), BitfieldError>(e)
            &&& forall|j: int| 0 <= j < k ==> field_bit_length(#[trigger] fields[j]@) is Ok
        },
    decreases fields.len(),
{
    if fields.len() > 0 {
        let shorter = fields.drop_last();
        let n = shorter.len() as int;
        lemma_fields_bit_lengths_per_field(shorter);
        match fields_bit_lengths(shorter) {
            Ok(prev) => {
                assert forall|j: int| 0 <= j < n implies field_bit_length(#[trigger] fields[j]@)
                    == Ok::<(usize, usize), BitfieldError>(prev[j]) by {
                    assert(fields[j] == shorter[j]);
                    assert(field_bit_length(shorter[j]@) == Ok::<(usize, usize), BitfieldError>(
                        prev[j],
                    ));
                }
                match field_bit_length(fields.last()@) {
                    Ok(found) => {
                        let all = prev.push(found);
                        assert forall|k: int| 0 <= k < fields.len() implies field_bit_length(
                            #[trigger] fields[k]@,
                        ) == Ok::<(usize, usize), BitfieldError>(all[k]) by {
                            if k < n {
                                assert(field_bit_length(fields[k]@) == Ok::<
                                    (usize, usize),
                                    BitfieldError,
                                >(prev[k]));
                            }
                        }
                    },
                    Err(e) => {
                        assert(fields.last() == fields[n]);
                        assert(((fields.len() - 1) as usize) as int == n);
                        assert forall|j: int| 0 <= j < n implies field_bit_length(
                            #[trigger] fields[j]@,
                        ) is Ok by {
                            assert(field_bit_length(fields[j]@) == Ok::<(usize, usize), BitfieldError>(
                                prev[j],
                            ));
                        }
                    },
                }
            },
            Err((k, e)) => {
                assert(fields[k as int] == shorter[k as int]);
                assert forall|j: int| 0 <= j < k implies field_bit_length(#[trigger] fields[j]@) is Ok by {
                    assert(fields[j] == shorter[j]);
                    assert(field_bit_length(shorter[j]@) is Ok);
                }
            },
        }
    }
}

/// Converting a name to capital snake case, one character at a time: the
/// empty name stays empty, and a character appended to a name appends, to
/// the converted name, an underscore where the character is uppercase and
/// not the first, then the character in uppercase.
pub proof fn lemma_capital_snake_case_steps(name: Seq<char>, c: char)
    ensures
        capital_snake_case(Seq::empty()) == Seq::<char>::empty(),
        capital_snake_case(name.push(c)) == capital_snake_case(name) + (if char_is_uppercase(c)
            && name.len() > 0 {
            seq!['_']
        } else {
            Seq::<char>::empty()
        }) + char_to_uppercase(c),
{
    assert(name.push(c).take(name.len() as int) =~= name);
}
} // verus!
