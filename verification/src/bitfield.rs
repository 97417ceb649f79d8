use vstd::prelude::*;
use crate::bits::{stream_bit, lemma_stream_bits_ext, LsbBitReader, LsbBitWriter, _copy_bits};
use crate::endianness::{BitfieldBitOrder, Endianness};
use crate::integer::{
    uint_bytes, uint_value, le_bytes, lemma_le_bytes_len, lemma_ordered_bytes_involution,
    lemma_uint_bytes_stream_bit, lemma_mod_pow2_bit, lemma_uint_bytes_fit, lemma_pow256_is_pow2,
    lemma_uint_roundtrip,
};
use vstd::arithmetic::power2::{pow2, lemma_pow2_pos, lemma_pow2_strictly_increases};
use vstd::arithmetic::div_mod::lemma_small_mod;

verus! {

/// The sum of `lengths`.
pub open spec fn sum_lengths(lengths: Seq<usize>) -> nat
    decreases lengths.len(),
{
    if lengths.len() == 0 {
        0
    } else {
        sum_lengths(lengths.drop_last()) + lengths.last() as nat
    }
}

/// The bit lengths of the fields in the order in which they are placed in the
/// bitfield's bit stream, least significant bit first.
pub open spec fn placed_lengths(bit_lengths: Seq<usize>, order: BitfieldBitOrder) -> Seq<usize> {
    match order {
        BitfieldBitOrder::LsbFirst => bit_lengths,
        BitfieldBitOrder::MsbFirst => bit_lengths.reverse(),
    }
}

/// The place among `n` fields at which field `i` is put into the bit stream
/// (and, the same map, the field that is put at place `i`).
pub open spec fn placement(n: int, order: BitfieldBitOrder, i: int) -> int {
    match order {
        BitfieldBitOrder::LsbFirst => i,
        BitfieldBitOrder::MsbFirst => n - 1 - i,
    }
}

/// The index in the bitfield's bit stream of the first bit of field `i`.
pub open spec fn field_bit_offset(bit_lengths: Seq<usize>, order: BitfieldBitOrder, i: int) -> int {
    sum_lengths(
        placed_lengths(bit_lengths, order).take(placement(bit_lengths.len() as int, order, i)),
    ) as int
}

/// `packed` holds, at the place of each field, the low bits of that field's
/// bytes; bits past all the fields are those of `prior`.
pub open spec fn packs_fields(
    packed: Seq<u8>,
    prior: Seq<u8>,
    fields: Seq<Seq<u8>>,
    bit_lengths: Seq<usize>,
    order: BitfieldBitOrder,
    endianness: Endianness,
) -> bool {
    &&& packed.len() == prior.len()
    &&& forall|i: int, q: int|
        0 <= i < bit_lengths.len() && 0 <= q < bit_lengths[i] ==> stream_bit(
            packed,
            endianness,
            field_bit_offset(bit_lengths, order, i) + q,
        ) == stream_bit(fields[i], endianness, q)
    &&& forall|q: int|
        q >= sum_lengths(bit_lengths) ==> stream_bit(packed, endianness, q) == stream_bit(
            prior,
            endianness,
            q,
        )
}

/// Each of `fields` has its size, holds the bits of its place in `packed` as its
/// low bits, and has every other bit clear.
pub open spec fn unpacks_fields(
    packed: Seq<u8>,
    fields: Seq<Seq<u8>>,
    field_sizes: Seq<usize>,
    bit_lengths: Seq<usize>,
    order: BitfieldBitOrder,
    endianness: Endianness,
) -> bool {
    &&& fields.len() == bit_lengths.len()
    &&& forall|i: int| 0 <= i < fields.len() ==> #[trigger] fields[i].len() == field_sizes[i]
    &&& forall|i: int, q: int|
        0 <= i < fields.len() ==> #[trigger] stream_bit(fields[i], endianness, q) == (0 <= q
            < bit_lengths[i] && stream_bit(
            packed,
            endianness,
            field_bit_offset(bit_lengths, order, i) + q,
        ))
}

/// Every bit of each field past its bit length is clear.
pub open spec fn fields_fit(
    fields: Seq<Seq<u8>>,
    bit_lengths: Seq<usize>,
    endianness: Endianness,
) -> bool {
    forall|i: int, q: int|
        0 <= i < fields.len() && q >= bit_lengths[i] ==> !#[trigger] stream_bit(
            fields[i],
            endianness,
            q,
        )
}

pub proof fn lemma_sum_lengths_take(lengths: Seq<usize>, k: int)
    requires
        0 <= k < lengths.len(),
    ensures
        sum_lengths(lengths.take(k + 1)) == sum_lengths(lengths.take(k)) + lengths[k],
{
    assert(lengths.take(k + 1).drop_last() =~= lengths.take(k));
}

pub proof fn lemma_sum_lengths_monotonic(lengths: Seq<usize>, j: int, k: int)
    requires
        0 <= j <= k <= lengths.len(),
    ensures
        sum_lengths(lengths.take(j)) <= sum_lengths(lengths.take(k)),
    decreases k - j,
{
    if j < k {
        lemma_sum_lengths_monotonic(lengths, j, k - 1);
        lemma_sum_lengths_take(lengths, k - 1);
    }
}

proof fn lemma_sum_lengths_first(lengths: Seq<usize>)
    requires
        lengths.len() > 0,
    ensures
        sum_lengths(lengths) == lengths[0] + sum_lengths(lengths.drop_first()),
    decreases lengths.len(),
{
    if lengths.len() > 1 {
        lemma_sum_lengths_first(lengths.drop_last());
        assert(lengths.drop_last().drop_first() =~= lengths.drop_first().drop_last());
        assert(lengths.drop_first().last() == lengths.last());
        assert(sum_lengths(lengths.drop_first()) == sum_lengths(lengths.drop_first().drop_last())
            + lengths.last() as nat);
        assert(lengths.drop_last()[0] == lengths[0]);
    } else {
        assert(sum_lengths(lengths.drop_first()) == 0);
        assert(sum_lengths(lengths.drop_last()) == 0);
    }
}

proof fn lemma_sum_lengths_reverse(lengths: Seq<usize>)
    ensures
        sum_lengths(lengths.reverse()) == sum_lengths(lengths),
    decreases lengths.len(),
{
    if lengths.len() > 0 {
        let r = lengths.reverse();
        assert(r.drop_last() =~= lengths.drop_first().reverse());
        lemma_sum_lengths_reverse(lengths.drop_first());
        lemma_sum_lengths_first(lengths);
    }
}

proof fn lemma_sum_lengths_all(lengths: Seq<usize>)
    ensures
        sum_lengths(lengths.take(lengths.len() as int)) == sum_lengths(lengths),
{
    assert(lengths.take(lengths.len() as int) =~= lengths);
}

/// Packs the low `bit_lengths[i]` bits of each of `fields` into `buf`, one
/// after the other in `order`, least significant bit first.
pub fn pack_bitfield(
    fields: &Vec<Vec<u8>>,
    bit_lengths: &Vec<usize>,
    order: &BitfieldBitOrder,
    buf: &mut [u8],
    endianness: Endianness,
)
    requires
        fields@.len() == bit_lengths@.len(),
        forall|i: int| 0 <= i < fields@.len() ==> bit_lengths@[i] <= 8 * (#[trigger] fields@[i])@.len(),
        sum_lengths(bit_lengths@) <= 8 * old(buf)@.len(),
    ensures
        packs_fields(
            final(buf)@,
            old(buf)@,
            fields@.map_values(|f: Vec<u8>| f@),
            bit_lengths@,
            *order,
            endianness,
        ),
{
    let n = fields.len();
    let ghost lengths = bit_lengths@;
    let ghost placed = placed_lengths(lengths, *order);
    let ghost prior = buf@;
    let ghost field_views = fields@.map_values(|f: Vec<u8>| f@);
    proof {
        if *order == BitfieldBitOrder::MsbFirst {
            lemma_sum_lengths_reverse(lengths);
        }
        lemma_sum_lengths_all(placed);
    }
    let ghost fin = final(buf)@;
    let mut writer = LsbBitWriter::new(buf, endianness);
    let mut t: usize = 0;
    while t < n
        invariant
            t <= n,
            n == fields@.len(),
            n == lengths.len(),
            lengths == bit_lengths@,
            placed == placed_lengths(lengths, *order),
            placed.len() == n,
            field_views == fields@.map_values(|f: Vec<u8>| f@),
            sum_lengths(placed) == sum_lengths(lengths),
            sum_lengths(placed.take(n as int)) == sum_lengths(placed),
            sum_lengths(lengths) <= 8 * prior.len(),
            forall|i: int| 0 <= i < n ==> lengths[i] <= 8 * (#[trigger] fields@[i])@.len(),
            writer.wf(),
            writer.byte_order() == endianness,
            writer.buf()@.len() == prior.len(),
            writer.bit_position() == sum_lengths(placed.take(t as int)),
            final(writer.buf())@ == fin,
            forall|s: int, q: int|
                0 <= s < t && 0 <= q < placed[s] ==> stream_bit(
                    writer.buf()@,
                    endianness,
                    sum_lengths(placed.take(s)) + q,
                ) == stream_bit(field_views[placement(n as int, *order, s)], endianness, q),
            forall|q: int|
                q >= sum_lengths(placed.take(t as int)) ==> stream_bit(
                    writer.buf()@,
                    endianness,
                    q,
                ) == stream_bit(prior, endianness, q),
        decreases n - t,
    {
        let i = match order {
            BitfieldBitOrder::LsbFirst => t,
            BitfieldBitOrder::MsbFirst => n - 1 - t,
        };
        proof {
            lemma_sum_lengths_take(placed, t as int);
            lemma_sum_lengths_monotonic(placed, t + 1, n as int);
            assert(placed[t as int] == lengths[i as int]);
        }
        let mut reader = LsbBitReader::new(fields[i].as_slice(), endianness);
        _copy_bits(&mut reader, &mut writer, bit_lengths[i]);
        proof {
            let p = sum_lengths(placed.take(t as int));
            assert forall|s: int, q: int|
                0 <= s < t + 1 && 0 <= q < placed[s] implies stream_bit(
                writer.buf()@,
                endianness,
                sum_lengths(placed.take(s)) + q,
            ) == stream_bit(field_views[placement(n as int, *order, s)], endianness, q) by {
                if s < t {
                    lemma_sum_lengths_take(placed, s);
                    lemma_sum_lengths_monotonic(placed, s + 1, t as int);
                } else {
                    assert(field_views[i as int] == fields@[i as int]@);
                }
            }
        }
        t = t + 1;
    }
    writer.finish();
    proof {
        assert forall|k: int, q: int|
            0 <= k < lengths.len() && 0 <= q < lengths[k] implies stream_bit(
            buf@,
            endianness,
            field_bit_offset(lengths, *order, k) + q,
        ) == stream_bit(field_views[k], endianness, q) by {
            let s = placement(n as int, *order, k);
            assert(placement(n as int, *order, s) == k);
            assert(placed[s] == lengths[k]);
        }
    }
}


/// `n` zero bytes.
fn zeroed_bytes(n: usize) -> (r: Vec<u8>)
    ensures
        r@ == Seq::new(n as nat, |i: int| 0u8),
{
    let mut r: Vec<u8> = Vec::new();
    let mut i: usize = 0;
    while i < n
        invariant
            i <= n,
            r@ == Seq::new(i as nat, |k: int| 0u8),
        decreases n - i,
    {
        r.push(0u8);
        i = i + 1;
        assert(r@ =~= Seq::new(i as nat, |k: int| 0u8));
    }
    r
}

proof fn lemma_zero_bytes_have_no_bits(zeros: Seq<u8>, endianness: Endianness)
    requires
        forall|i: int| 0 <= i < zeros.len() ==> zeros[i] == 0,
    ensures
        forall|q: int| !#[trigger] stream_bit(zeros, endianness, q),
{
    assert forall|q: int| !#[trigger] stream_bit(zeros, endianness, q) by {
        if 0 <= q < 8 * zeros.len() {
            let k = (q % 8) as u8;
            assert((0u8 >> k) & 1u8 == 0u8) by (bit_vector);
        }
    }
}

/// Unpacks from the bitfield `buf` the bits of each field, one after the other
/// in `order`, least significant bit first, into a new zeroed buffer of the
/// field's size.
pub fn unpack_bitfield(
    buf: &[u8],
    field_sizes: &Vec<usize>,
    bit_lengths: &Vec<usize>,
    order: &BitfieldBitOrder,
    endianness: Endianness,
) -> (r: Vec<Vec<u8>>)
    requires
        field_sizes@.len() == bit_lengths@.len(),
        forall|i: int| 0 <= i < field_sizes@.len() ==> bit_lengths@[i] <= 8 * #[trigger] field_sizes@[i],
        sum_lengths(bit_lengths@) <= 8 * buf@.len(),
    ensures
        unpacks_fields(
            buf@,
            r@.map_values(|f: Vec<u8>| f@),
            field_sizes@,
            bit_lengths@,
            *order,
            endianness,
        ),
{
    let n = bit_lengths.len();
    let ghost lengths = bit_lengths@;
    let ghost placed = placed_lengths(lengths, *order);
    proof {
        if *order == BitfieldBitOrder::MsbFirst {
            lemma_sum_lengths_reverse(lengths);
        }
        lemma_sum_lengths_all(placed);
    }
    let mut r: Vec<Vec<u8>> = Vec::new();
    let mut k: usize = 0;
    while k < n
        invariant
            k <= n,
            r@.len() == k,
        decreases n - k,
    {
        r.push(Vec::new());
        k = k + 1;
    }
    let mut reader = LsbBitReader::new(buf, endianness);
    let mut t: usize = 0;
    while t < n
        invariant
            t <= n,
            n == lengths.len(),
            n == field_sizes@.len(),
            lengths == bit_lengths@,
            placed == placed_lengths(lengths, *order),
            placed.len() == n,
            r@.len() == n,
            sum_lengths(placed) == sum_lengths(lengths),
            sum_lengths(placed.take(n as int)) == sum_lengths(placed),
            sum_lengths(lengths) <= 8 * buf@.len(),
            forall|i: int| 0 <= i < n ==> lengths[i] <= 8 * #[trigger] field_sizes@[i],
            reader.wf(),
            reader.bytes() == buf@,
            reader.byte_order() == endianness,
            reader.bit_position() == sum_lengths(placed.take(t as int)),
            forall|s: int|
                0 <= s < t ==> #[trigger] r@[placement(n as int, *order, s)]@.len()
                    == field_sizes@[placement(n as int, *order, s)],
            forall|s: int, q: int|
                0 <= s < t ==> #[trigger] stream_bit(
                    r@[placement(n as int, *order, s)]@,
                    endianness,
                    q,
                ) == (0 <= q < placed[s] && stream_bit(
                    buf@,
                    endianness,
                    sum_lengths(placed.take(s)) + q,
                )),
        decreases n - t,
    {
        let i = match order {
            BitfieldBitOrder::LsbFirst => t,
            BitfieldBitOrder::MsbFirst => n - 1 - t,
        };
        proof {
            lemma_sum_lengths_take(placed, t as int);
            lemma_sum_lengths_monotonic(placed, t + 1, n as int);
            assert(placed[t as int] == lengths[i as int]);
        }
        let ghost p = reader.bit_position();
        let mut array = zeroed_bytes(field_sizes[i]);
        let ghost zeros = array@;
        proof {
            lemma_zero_bytes_have_no_bits(zeros, endianness);
        }
        {
            let mut writer = LsbBitWriter::new(array.as_mut_slice(), endianness);
            _copy_bits(&mut reader, &mut writer, bit_lengths[i]);
            writer.finish();
        }
        assert forall|q: int| #[trigger] stream_bit(array@, endianness, q) == (0 <= q < placed[t as int]
            && stream_bit(buf@, endianness, p + q)) by {
            if 0 <= q < placed[t as int] {
            } else {
                assert(!stream_bit(zeros, endianness, q));
            }
        }
        let ghost old_r = r@;
        r.set(i, array);
        proof {
            assert forall|s: int, q: int|
                0 <= s < t + 1 implies #[trigger] stream_bit(
                r@[placement(n as int, *order, s)]@,
                endianness,
                q,
            ) == (0 <= q < placed[s] && stream_bit(
                buf@,
                endianness,
                sum_lengths(placed.take(s)) + q,
            )) by {
                if s < t {
                    assert(placement(n as int, *order, s) != i);
                    assert(r@[placement(n as int, *order, s)] == old_r[placement(n as int, *order, s)]);
                }
            }
            assert forall|s: int|
                0 <= s < t + 1 implies #[trigger] r@[placement(n as int, *order, s)]@.len()
                    == field_sizes@[placement(n as int, *order, s)] by {
                if s < t {
                    assert(r@[placement(n as int, *order, s)] == old_r[placement(n as int, *order, s)]);
                }
            }
        }
        t = t + 1;
    }
    proof {
        let views = r@.map_values(|f: Vec<u8>| f@);
        assert forall|i: int| 0 <= i < views.len() implies #[trigger] views[i].len() == field_sizes@[i] by {
            let s = placement(n as int, *order, i);
            assert(placement(n as int, *order, s) == i);
        }
        assert forall|i: int, q: int|
            0 <= i < views.len() implies #[trigger] stream_bit(views[i], endianness, q) == (0 <= q
            < lengths[i] && stream_bit(buf@, endianness, field_bit_offset(lengths, *order, i) + q)) by {
            let s = placement(n as int, *order, i);
            assert(placement(n as int, *order, s) == i);
            assert(placed[s] == lengths[i]);
            assert(stream_bit(r@[placement(n as int, *order, s)]@, endianness, q) == (0 <= q < placed[s] && stream_bit(
                buf@,
                endianness,
                sum_lengths(placed.take(s)) + q,
            )));
        }
    }
    r
}


/// Unpacking a bitfield into which fields were packed, each small enough for
/// its bit length, gives back each field as it was.
pub proof fn lemma_bitfield_roundtrip(
    packed: Seq<u8>,
    prior: Seq<u8>,
    fields: Seq<Seq<u8>>,
    unpacked: Seq<Seq<u8>>,
    field_sizes: Seq<usize>,
    bit_lengths: Seq<usize>,
    order: BitfieldBitOrder,
    endianness: Endianness,
)
    requires
        fields.len() == bit_lengths.len(),
        forall|i: int| 0 <= i < fields.len() ==> field_sizes[i] == #[trigger] fields[i].len(),
        packs_fields(packed, prior, fields, bit_lengths, order, endianness),
        unpacks_fields(packed, unpacked, field_sizes, bit_lengths, order, endianness),
        fields_fit(fields, bit_lengths, endianness),
    ensures
        unpacked == fields,
{
    assert forall|i: int| 0 <= i < fields.len() implies unpacked[i] == fields[i] by {
        assert(unpacked[i].len() == field_sizes[i]);
        assert forall|q: int| stream_bit(unpacked[i], endianness, q) == stream_bit(
            fields[i],
            endianness,
            q,
        ) by {
            if 0 <= q < bit_lengths[i] {
            } else if q >= bit_lengths[i] {
                assert(!stream_bit(fields[i], endianness, q));
            }
        }
        lemma_stream_bits_ext(unpacked[i], fields[i], endianness);
    }
    assert(unpacked =~= fields);
}


/// The bytes that the unsigned numbers `values` take, each in its field size.
pub open spec fn uint_fields(values: Seq<nat>, field_sizes: Seq<usize>, endianness: Endianness) -> Seq<
    Seq<u8>,
> {
    Seq::new(values.len(), |i: int| uint_bytes(values[i], field_sizes[i] as nat, endianness))
}

/// Unpacking a bitfield into which unsigned numbers were packed gives each
/// number back modulo `2^bit_length`: a number that fits in its bit length
/// comes back unchanged, any other comes back as its low bits.
pub proof fn lemma_bitfield_value_roundtrip(
    packed: Seq<u8>,
    prior: Seq<u8>,
    values: Seq<nat>,
    unpacked: Seq<Seq<u8>>,
    field_sizes: Seq<usize>,
    bit_lengths: Seq<usize>,
    order: BitfieldBitOrder,
    endianness: Endianness,
)
    requires
        values.len() == bit_lengths.len(),
        field_sizes.len() == bit_lengths.len(),
        forall|i: int| 0 <= i < bit_lengths.len() ==> bit_lengths[i] <= 8 * field_sizes[i],
        packs_fields(
            packed,
            prior,
            uint_fields(values, field_sizes, endianness),
            bit_lengths,
            order,
            endianness,
        ),
        unpacks_fields(packed, unpacked, field_sizes, bit_lengths, order, endianness),
    ensures
        forall|i: int|
            0 <= i < values.len() ==> #[trigger] unpacked[i] == uint_bytes(
                values[i] % pow2(bit_lengths[i] as nat),
                field_sizes[i] as nat,
                endianness,
            ),
        forall|i: int|
            0 <= i < values.len() ==> uint_value(#[trigger] unpacked[i], endianness) == values[i]
                % pow2(bit_lengths[i] as nat),
        forall|i: int|
            0 <= i < values.len() && values[i] < pow2(bit_lengths[i] as nat) ==> #[trigger] unpacked[i]
                == uint_bytes(values[i], field_sizes[i] as nat, endianness),
{
    let fields = uint_fields(values, field_sizes, endianness);
    assert forall|i: int| 0 <= i < values.len() implies #[trigger] unpacked[i] == uint_bytes(
        values[i] % pow2(bit_lengths[i] as nat),
        field_sizes[i] as nat,
        endianness,
    ) && uint_value(unpacked[i], endianness) == values[i] % pow2(bit_lengths[i] as nat) by {
        let v = values[i];
        let m = bit_lengths[i] as nat;
        let size = field_sizes[i] as nat;
        let w = v % pow2(m);
        let expected = uint_bytes(w, size, endianness);
        lemma_pow2_pos(m);
        lemma_le_bytes_len(w, size);
        lemma_ordered_bytes_involution(le_bytes(w, size), endianness);
        assert forall|q: int| stream_bit(unpacked[i], endianness, q) == stream_bit(
            expected,
            endianness,
            q,
        ) by {
            lemma_uint_bytes_stream_bit(w, size, endianness, q);
            lemma_uint_bytes_stream_bit(v, size, endianness, q);
            if 0 <= q < m {
                assert(fields[i] == uint_bytes(v, size, endianness));
                lemma_mod_pow2_bit(v, m, q as nat);
            } else if q >= m {
                lemma_uint_bytes_fit(w, m, size, endianness);
            }
        }
        lemma_stream_bits_ext(unpacked[i], expected, endianness);
        lemma_pow256_is_pow2(size);
        if m < 8 * size {
            lemma_pow2_strictly_increases(m, 8 * size);
        }
        lemma_uint_roundtrip(w, size, endianness);
    }
    assert forall|i: int|
        0 <= i < values.len() && values[i] < pow2(bit_lengths[i] as nat) implies #[trigger] unpacked[i]
        == uint_bytes(values[i], field_sizes[i] as nat, endianness) by {
        lemma_small_mod(values[i], pow2(bit_lengths[i] as nat));
    }
}

/// Where each field starts in a bitfield's bit stream: with `LsbFirst`, after
/// the bits of the fields before it; with `MsbFirst`, after the bits of the
/// fields that follow it, so that the first field takes the top bits.
pub proof fn lemma_field_offsets(bit_lengths: Seq<usize>, i: int)
    requires
        0 <= i < bit_lengths.len(),
    ensures
        field_bit_offset(bit_lengths, BitfieldBitOrder::LsbFirst, i) == sum_lengths(
            bit_lengths.take(i),
        ),
        field_bit_offset(bit_lengths, BitfieldBitOrder::MsbFirst, i) == sum_lengths(
            bit_lengths.skip(i + 1),
        ),
{
    let n = bit_lengths.len() as int;
    assert(bit_lengths.reverse().take(n - 1 - i) =~= bit_lengths.skip(i + 1).reverse());
    lemma_sum_lengths_reverse(bit_lengths.skip(i + 1));
}

/// Packing puts the low bits of field `i` into the bit stream right after the
/// bits of the fields before it (`LsbFirst`) or after it (`MsbFirst`), and
/// leaves every bit past all the fields as it was.
pub proof fn lemma_pack_places_fields(
    packed: Seq<u8>,
    prior: Seq<u8>,
    fields: Seq<Seq<u8>>,
    bit_lengths: Seq<usize>,
    order: BitfieldBitOrder,
    endianness: Endianness,
)
    requires
        packs_fields(packed, prior, fields, bit_lengths, order, endianness),
    ensures
        order == BitfieldBitOrder::LsbFirst ==> forall|i: int, q: int|
            0 <= i < bit_lengths.len() && 0 <= q < bit_lengths[i] ==> stream_bit(
                packed,
                endianness,
                sum_lengths(#[trigger] bit_lengths.take(i)) + q,
            ) == #[trigger] stream_bit(fields[i], endianness, q),
        order == BitfieldBitOrder::MsbFirst ==> forall|i: int, q: int|
            0 <= i < bit_lengths.len() && 0 <= q < bit_lengths[i] ==> stream_bit(
                packed,
                endianness,
                sum_lengths(#[trigger] bit_lengths.skip(i + 1)) + q,
            ) == #[trigger] stream_bit(fields[i], endianness, q),
        forall|q: int|
            q >= sum_lengths(bit_lengths) ==> #[trigger] stream_bit(packed, endianness, q)
                == stream_bit(prior, endianness, q),
{
    assert forall|i: int| 0 <= i < bit_lengths.len() implies field_bit_offset(
        bit_lengths,
        order,
        i,
    ) == if order == BitfieldBitOrder::LsbFirst {
        sum_lengths(bit_lengths.take(i))
    } else {
        sum_lengths(bit_lengths.skip(i + 1))
    } by {
        lemma_field_offsets(bit_lengths, i);
    }
}

/// Unpacking gives each field, as its low bits, the bits of the bit stream
/// right after the bits of the fields before it (`LsbFirst`) or after it
/// (`MsbFirst`); every other bit of the field is clear.
pub proof fn lemma_unpack_reads_fields(
    packed: Seq<u8>,
    fields: Seq<Seq<u8>>,
    field_sizes: Seq<usize>,
    bit_lengths: Seq<usize>,
    order: BitfieldBitOrder,
    endianness: Endianness,
)
    requires
        unpacks_fields(packed, fields, field_sizes, bit_lengths, order, endianness),
    ensures
        fields.len() == bit_lengths.len(),
        order == BitfieldBitOrder::LsbFirst ==> forall|i: int, q: int|
            0 <= i < fields.len() ==> #[trigger] stream_bit(fields[i], endianness, q) == (0 <= q
                < bit_lengths[i] && stream_bit(
                packed,
                endianness,
                sum_lengths(bit_lengths.take(i)) + q,
            )),
        order == BitfieldBitOrder::MsbFirst ==> forall|i: int, q: int|
            0 <= i < fields.len() ==> #[trigger] stream_bit(fields[i], endianness, q) == (0 <= q
                < bit_lengths[i] && stream_bit(
                packed,
                endianness,
                sum_lengths(bit_lengths.skip(i + 1)) + q,
            )),
{
    assert forall|i: int| 0 <= i < bit_lengths.len() implies field_bit_offset(
        bit_lengths,
        order,
        i,
    ) == if order == BitfieldBitOrder::LsbFirst {
        sum_lengths(bit_lengths.take(i))
    } else {
        sum_lengths(bit_lengths.skip(i + 1))
    } by {
        lemma_field_offsets(bit_lengths, i);
    }
}

/// Packing with `MsbFirst` is packing the fields in reverse order with
/// `LsbFirst`.
pub proof fn lemma_msb_first_is_reversed_lsb_first(
    packed: Seq<u8>,
    prior: Seq<u8>,
    fields: Seq<Seq<u8>>,
    bit_lengths: Seq<usize>,
    endianness: Endianness,
)
    requires
        fields.len() == bit_lengths.len(),
    ensures
        packs_fields(packed, prior, fields, bit_lengths, BitfieldBitOrder::MsbFirst, endianness)
            == packs_fields(
            packed,
            prior,
            fields.reverse(),
            bit_lengths.reverse(),
            BitfieldBitOrder::LsbFirst,
            endianness,
        ),
{
    let n = bit_lengths.len() as int;
    let rl = bit_lengths.reverse();
    let rf = fields.reverse();
    lemma_sum_lengths_reverse(bit_lengths);
    assert forall|i: int| 0 <= i < n implies field_bit_offset(
        bit_lengths,
        BitfieldBitOrder::MsbFirst,
        i,
    ) == field_bit_offset(rl, BitfieldBitOrder::LsbFirst, n - 1 - i) by {
        lemma_field_offsets(bit_lengths, i);
        lemma_field_offsets(rl, n - 1 - i);
        assert(rl.take(n - 1 - i) =~= bit_lengths.skip(i + 1).reverse());
        lemma_sum_lengths_reverse(bit_lengths.skip(i + 1));
    }
    let msb = packs_fields(packed, prior, fields, bit_lengths, BitfieldBitOrder::MsbFirst, endianness);
    let lsb = packs_fields(packed, prior, rf, rl, BitfieldBitOrder::LsbFirst, endianness);
    if msb {
        assert forall|j: int, q: int| 0 <= j < n && 0 <= q < rl[j] implies stream_bit(
            packed,
            endianness,
            field_bit_offset(rl, BitfieldBitOrder::LsbFirst, j) + q,
        ) == stream_bit(rf[j], endianness, q) by {
            let i = n - 1 - j;
            assert(field_bit_offset(bit_lengths, BitfieldBitOrder::MsbFirst, i)
                == field_bit_offset(rl, BitfieldBitOrder::LsbFirst, n - 1 - i));
        }
    }
    if lsb {
        assert forall|i: int, q: int| 0 <= i < n && 0 <= q < bit_lengths[i] implies stream_bit(
            packed,
            endianness,
            field_bit_offset(bit_lengths, BitfieldBitOrder::MsbFirst, i) + q,
        ) == stream_bit(fields[i], endianness, q) by {
            let j = n - 1 - i;
            assert(rl[j] == bit_lengths[i]);
            assert(rf[j] == fields[i]);
        }
    }
}
} // verus!
