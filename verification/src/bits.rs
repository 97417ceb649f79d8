use vstd::prelude::*;
use crate::endianness::Endianness;
use crate::bitfield::sum_lengths;
use vstd::arithmetic::power2::{
    pow2, lemma2_to64, lemma_pow2_adds, lemma_pow2_pos, lemma_pow2_strictly_increases,
};
use vstd::bits::{
    low_bits_mask, lemma_u8_low_bits_mask_is_mod, lemma_u8_pow2_no_overflow, lemma_u8_shl_is_mul,
    lemma_u8_shr_is_div,
};

verus! {

/// Whether bit `k` (counted from the least significant bit) of `byte` is set.
pub open spec fn byte_bit(byte: u8, k: int) -> bool {
    0 <= k < 8 && (byte >> (k as u8)) & 1u8 == 1u8
}

/// The mask of `amount` bits of a byte from bit `start` on, as a number:
/// `(2^amount - 1) * 2^start`.
pub open spec fn bits_mask(start: nat, amount: nat) -> nat {
    low_bits_mask(amount) * pow2(start)
}

/// The `amount` bits of `byte` from bit `start` on, as a number:
/// `(byte / 2^start) mod 2^amount`.
pub open spec fn bits_of_byte(byte: u8, start: nat, amount: nat) -> nat {
    (byte as nat / pow2(start)) % pow2(amount)
}

/// `(1 << amount) - 1` is the mask of the low `amount` bits, and shifted left
/// by `start` it is the mask of `amount` bits from bit `start` on.
proof fn lemma_shifted_mask_value(start: u8, amount: u8)
    requires
        start < 8,
        amount < 8,
        start + amount <= 8,
    ensures
        ((1u8 << amount) - 1) as nat == low_bits_mask(amount as nat),
        ((((1u8 << amount) - 1) as u8) << start) as nat == bits_mask(start as nat, amount as nat),
{
    lemma_u8_pow2_no_overflow(amount as nat);
    lemma_u8_shl_is_mul(1u8, amount);
    let m = ((1u8 << amount) - 1) as u8;
    let ps = pow2(start as nat);
    let pa = pow2(amount as nat);
    lemma_pow2_pos(start as nat);
    lemma_pow2_adds(amount as nat, start as nat);
    lemma2_to64();
    if start + amount < 8 {
        lemma_pow2_strictly_increases((start + amount) as nat, 8);
    }
    assert(m * ps == pa * ps - ps) by (nonlinear_arith)
        requires
            m == pa - 1,
    ;
    lemma_u8_shl_is_mul(m, start);
}

/// `(byte >> start) & mask` with the mask of the low `amount` bits is the
/// number formed by `amount` bits of `byte` from bit `start` on.
proof fn lemma_shifted_bits_value(byte: u8, start: u8, amount: u8)
    requires
        start < 8,
        amount < 8,
    ensures
        ((byte >> start) & (((1u8 << amount) - 1) as u8)) as nat == bits_of_byte(
            byte,
            start as nat,
            amount as nat,
        ),
{
    lemma_u8_pow2_no_overflow(amount as nat);
    lemma_u8_shl_is_mul(1u8, amount);
    lemma_pow2_pos(start as nat);
    lemma_u8_shr_is_div(byte, start);
    lemma_u8_low_bits_mask_is_mod(byte >> start, amount as nat);
}

/// Masking a byte with the mask of `amount` bits at `start` and shifting the
/// result right by `start` gives those `amount` bits of the byte.
pub proof fn lemma_mask_selects_bits(byte: u8, start: u8, amount: u8)
    requires
        start < 8,
        start + amount <= 8,
    ensures
        ((byte & (bits_mask(start as nat, amount as nat) as u8)) >> start) as nat == bits_of_byte(
            byte,
            start as nat,
            amount as nat,
        ),
{
    lemma2_to64();
    if amount == 8 {
        assert(low_bits_mask(8) == 255 && pow2(0) == 1);
        assert(bits_mask(start as nat, amount as nat) == 255);
        assert((byte & 0xffu8) >> 0u8 == byte) by (bit_vector);
        assert(byte as nat / 1 == byte as nat);
        assert(bits_of_byte(byte, 0, 8) == byte as nat);
    } else {
        lemma_shifted_mask_value(start, amount);
        lemma_shifted_bits_value(byte, start, amount);
        let m = ((1u8 << amount) - 1) as u8;
        assert((byte & (m << start)) >> start == (byte >> start) & m) by (bit_vector)
            requires
                m == ((1u8 << amount) - 1) as u8,
                start < 8,
                amount < 8,
                start + amount <= 8,
        ;
    }
}

/// Extracts `bits_amount` bits of `byte`, starting at bit `start_bit_index`.
pub fn get_bits_of_byte(byte: u8, start_bit_index: usize, bits_amount: usize) -> (r: u8)
    requires
        start_bit_index < 8,
        bits_amount <= 8,
    ensures
        r as nat == bits_of_byte(byte, start_bit_index as nat, bits_amount as nat),
        forall|k: int|
            0 <= k < 8 ==> byte_bit(r, k) == (k < bits_amount && byte_bit(
                byte,
                start_bit_index + k,
            )),
{
    let s = start_bit_index as u8;
    let a = bits_amount as u8;
    let mask: u8 = if a == 8 {
        u8::MAX
    } else {
        assert(1u8 << a >= 1u8) by (bit_vector)
            requires
                a < 8,
        ;
        (1u8 << a) - 1
    };
    let r = (byte >> s) & mask;
    proof {
        if a == 8 {
            lemma2_to64();
            lemma_pow2_pos(s as nat);
            lemma_u8_shr_is_div(byte, s);
            assert((byte >> s) & 0xffu8 == byte >> s) by (bit_vector);
            assert(byte as nat / pow2(s as nat) <= byte as nat) by (nonlinear_arith)
                requires
                    pow2(s as nat) >= 1,
            ;
        } else {
            lemma_shifted_bits_value(byte, s, a);
        }
    }
    assert forall|k: int| 0 <= k < 8 implies byte_bit(r, k) == (k < bits_amount && byte_bit(
        byte,
        start_bit_index + k,
    )) by {
        let kk = k as u8;
        if a == 8 {
            assert(((byte >> s) & mask) >> kk & 1u8 == 1u8 <==> (kk + s < 8 && (byte >> ((kk
                + s) as u8)) & 1u8 == 1u8)) by (bit_vector)
                requires
                    s < 8,
                    kk < 8,
                    mask == 0xffu8,
            ;
        } else {
            assert(((byte >> s) & mask) >> kk & 1u8 == 1u8 <==> (kk < a && kk + s < 8 && (byte
                >> ((kk + s) as u8)) & 1u8 == 1u8)) by (bit_vector)
                requires
                    s < 8,
                    kk < 8,
                    a < 8,
                    mask == ((1u8 << a) - 1u8) as u8,
            ;
        }
    }
    r
}


/// The mask that selects `bits_amount` bits of a byte starting at bit `start_bit_index`.
pub fn get_bits_mask(start_bit_index: usize, bits_amount: usize) -> (r: u8)
    requires
        start_bit_index < 8,
        bits_amount <= 8,
    ensures
        start_bit_index + bits_amount <= 8 ==> r as nat == bits_mask(
            start_bit_index as nat,
            bits_amount as nat,
        ),
        forall|k: int|
            0 <= k < 8 ==> byte_bit(r, k) == (bits_amount == 8 || (start_bit_index <= k
                < start_bit_index + bits_amount)),
{
    let s = start_bit_index as u8;
    let a = bits_amount as u8;
    if a == 8 {
        assert forall|k: int| 0 <= k < 8 implies byte_bit(u8::MAX, k) by {
            let kk = k as u8;
            assert((0xffu8 >> kk) & 1u8 == 1u8) by (bit_vector)
                requires
                    kk < 8,
            ;
        }
        proof {
            if s + a <= 8 {
                lemma2_to64();
                assert(low_bits_mask(8) == 255 && pow2(0) == 1);
                assert(bits_mask(s as nat, a as nat) == 255);
            }
        }
        u8::MAX
    } else {
        assert(1u8 << a >= 1u8) by (bit_vector)
            requires
                a < 8,
        ;
        let unshifted: u8 = (1u8 << a) - 1;
        let r = unshifted << s;
        proof {
            if s + a <= 8 {
                lemma_shifted_mask_value(s, a);
            }
        }
        assert forall|k: int| 0 <= k < 8 implies byte_bit(r, k) == (s <= k < s + a) by {
            let kk = k as u8;
            assert((r >> kk) & 1u8 == 1u8 <==> (s <= kk && kk < s + a)) by (bit_vector)
                requires
                    kk < 8,
                    s < 8,
                    a < 8,
                    unshifted == ((1u8 << a) - 1u8) as u8,
                    r == unshifted << s,
            ;
        }
        r
    }
}

/// The index into the byte slice of the byte that holds the `j`-th byte of a
/// bit stream, counted in the order in which the stream is read.
pub open spec fn physical_byte_index(len: int, endianness: Endianness, j: int) -> int {
    match endianness {
        Endianness::Big => len - 1 - j,
        Endianness::Little => j,
    }
}

/// Bit `q` of the bit stream that `bytes` form under `endianness`: bits are
/// taken least significant first, byte after byte, starting from the first
/// byte for little endian and from the last byte for big endian.
pub open spec fn stream_bit(bytes: Seq<u8>, endianness: Endianness, q: int) -> bool {
    &&& 0 <= q < 8 * bytes.len()
    &&& byte_bit(bytes[physical_byte_index(bytes.len() as int, endianness, q / 8)], q % 8)
}

/// Reads a byte slice as a sequence of bits, least significant bit first.
#[derive(Clone)]
pub struct LsbBitReader<'a> {
    bytes: &'a [u8],
    bit_index_in_cur_byte: usize,
    endianness: Endianness,
    endianness_neutral_byte_index: usize,
}

impl<'a> LsbBitReader<'a> {
    /// The bytes that this reader reads.
    pub closed spec fn bytes(&self) -> Seq<u8> {
        self.bytes@
    }

    /// The endianness by which this reader orders the bytes.
    pub closed spec fn byte_order(&self) -> Endianness {
        self.endianness
    }

    /// How many bytes of the stream were read whole.
    pub closed spec fn neutral_byte_index(&self) -> nat {
        self.endianness_neutral_byte_index as nat
    }

    /// How many bits of the current byte were read.
    pub closed spec fn bit_index(&self) -> nat {
        self.bit_index_in_cur_byte as nat
    }

    /// The index in the bit stream of the next bit to be read.
    pub open spec fn bit_position(&self) -> int {
        (8 * self.neutral_byte_index() + self.bit_index()) as int
    }

    pub open spec fn wf(&self) -> bool {
        self.bit_index() < 8
    }

    /// What one call of `read_bits(amount)` does to the reader: it reads the
    /// same bytes in the same order, and has moved on by `amount` bits.
    pub open spec fn read_step(&self, amount: nat, after: Self) -> bool {
        &&& after.bytes() == self.bytes()
        &&& after.byte_order() == self.byte_order()
        &&& after.wf()
        &&& after.bit_position() == self.bit_position() + amount
    }

    /// Whether `states` are the states of a reader over calls of `read_bits`
    /// with `amounts`, one call after the other.
    pub open spec fn is_read_run(states: Seq<Self>, amounts: Seq<usize>) -> bool
        decreases amounts.len(),
    {
        &&& states.len() == amounts.len() + 1
        &&& amounts.len() > 0 ==> {
            &&& Self::is_read_run(states.drop_last(), amounts.drop_last())
            &&& states[amounts.len() - 1].read_step(amounts.last() as nat, states.last())
        }
    }

    /// Creates a reader at the start of `bytes`.
    pub fn new(bytes: &'a [u8], endianness: Endianness) -> (r: Self)
        ensures
            r.bytes() == bytes@,
            r.byte_order() == endianness,
            r.neutral_byte_index() == 0,
            r.bit_index() == 0,
            r.wf(),
    {
        Self { bytes, bit_index_in_cur_byte: 0, endianness, endianness_neutral_byte_index: 0 }
    }

    /// The index in the slice of the byte being read.
    pub fn cur_byte_index(&self) -> (r: usize)
        requires
            self.byte_order() == Endianness::Big ==> self.neutral_byte_index() < self.bytes().len(),
        ensures
            r == physical_byte_index(
                self.bytes().len() as int,
                self.byte_order(),
                self.neutral_byte_index() as int,
            ),
    {
        match self.endianness {
            Endianness::Big => self.bytes.len() - 1 - self.endianness_neutral_byte_index,
            Endianness::Little => self.endianness_neutral_byte_index,
        }
    }

    /// How many bits of the current byte are left to read.
    pub fn bits_left_in_cur_byte(&self) -> (r: usize)
        requires
            self.bit_index() <= 8,
        ensures
            r == 8 - self.bit_index(),
    {
        8 - self.bit_index_in_cur_byte
    }

    /// Reads `bits_amount` bits, which must not cross the end of the current byte.
    pub fn read_bits(&mut self, bits_amount: usize) -> (r: u8)
        requires
            old(self).wf(),
            bits_amount <= 8 - old(self).bit_index(),
            old(self).neutral_byte_index() < old(self).bytes().len(),
        ensures
            old(self).read_step(bits_amount as nat, *final(self)),
            forall|k: int|
                0 <= k < 8 ==> byte_bit(r, k) == (k < bits_amount && stream_bit(
                    old(self).bytes(),
                    old(self).byte_order(),
                    old(self).bit_position() + k,
                )),
    {
        let cur_byte_index = self.cur_byte_index();
        let result = get_bits_of_byte(
            self.bytes[cur_byte_index],
            self.bit_index_in_cur_byte,
            bits_amount,
        );
        let ghost p = old(self).bit_position();
        let ghost j = old(self).neutral_byte_index() as int;
        let ghost b = old(self).bit_index() as int;
        assert forall|k: int| 0 <= k < 8 implies byte_bit(result, k) == (k < bits_amount && stream_bit(
            old(self).bytes(), old(self).byte_order(), p + k)) by {
            if k < bits_amount {
                assert((p + k) / 8 == j);
                assert((p + k) % 8 == b + k);
            }
        }
        self.bit_index_in_cur_byte += bits_amount;
        if self.bit_index_in_cur_byte == 8 {
            self.endianness_neutral_byte_index += 1;
            self.bit_index_in_cur_byte = 0;
        }
        result
    }
}


/// Writes bit sequences into a byte slice, least significant bit first.
pub struct LsbBitWriter<'a> {
    bytes: &'a mut [u8],
    bit_index_in_cur_byte: usize,
    endianness: Endianness,
    endianness_neutral_byte_index: usize,
}

impl<'a> LsbBitWriter<'a> {
    /// The slice that this writer writes into.
    pub closed spec fn buf(&self) -> &'a mut [u8] {
        self.bytes
    }

    /// The endianness by which this writer orders the bytes.
    pub closed spec fn byte_order(&self) -> Endianness {
        self.endianness
    }

    /// How many bytes of the stream were written whole.
    pub closed spec fn neutral_byte_index(&self) -> nat {
        self.endianness_neutral_byte_index as nat
    }

    /// How many bits of the current byte were written.
    pub closed spec fn bit_index(&self) -> nat {
        self.bit_index_in_cur_byte as nat
    }

    /// The index in the bit stream of the next bit to be written.
    pub open spec fn bit_position(&self) -> int {
        (8 * self.neutral_byte_index() + self.bit_index()) as int
    }

    pub open spec fn wf(&self) -> bool {
        self.bit_index() < 8
    }

    /// What one call of `write_bits(_, amount)` does to the writer's position:
    /// it writes into a slice of the same length in the same order, and has
    /// moved on by `amount` bits.
    pub open spec fn write_step(&self, amount: nat, after: Self) -> bool {
        &&& after.buf()@.len() == self.buf()@.len()
        &&& after.byte_order() == self.byte_order()
        &&& after.wf()
        &&& after.bit_position() == self.bit_position() + amount
    }

    /// Whether `states` are the states of a writer over calls of `write_bits`
    /// with `amounts`, one call after the other.
    pub open spec fn is_write_run(states: Seq<Self>, amounts: Seq<usize>) -> bool
        decreases amounts.len(),
    {
        &&& states.len() == amounts.len() + 1
        &&& amounts.len() > 0 ==> {
            &&& Self::is_write_run(states.drop_last(), amounts.drop_last())
            &&& states[amounts.len() - 1].write_step(amounts.last() as nat, states.last())
        }
    }

    /// Creates a writer at the start of `bytes`.
    pub fn new(bytes: &'a mut [u8], endianness: Endianness) -> (r: Self)
        ensures
            r.buf()@ == old(bytes)@,
            final(r.buf())@ == final(bytes)@,
            r.byte_order() == endianness,
            r.neutral_byte_index() == 0,
            r.bit_index() == 0,
    {
        Self { bit_index_in_cur_byte: 0, endianness, endianness_neutral_byte_index: 0, bytes }
    }

    /// Ends the writing: the slice keeps what was written into it.
    pub fn finish(self)
        ensures
            final(self.buf())@ == self.buf()@,
    {
    }

    /// The index in the slice of the byte being written.
    pub fn cur_byte_index(&self) -> (r: usize)
        requires
            self.byte_order() == Endianness::Big ==> self.neutral_byte_index()
                < self.buf()@.len(),
        ensures
            r == physical_byte_index(
                self.buf()@.len() as int,
                self.byte_order(),
                self.neutral_byte_index() as int,
            ),
    {
        match self.endianness {
            Endianness::Big => self.bytes.len() - 1 - self.endianness_neutral_byte_index,
            Endianness::Little => self.endianness_neutral_byte_index,
        }
    }

    /// How many bits of the current byte are left to write.
    pub fn bits_left_in_cur_byte(&self) -> (r: usize)
        requires
            self.bit_index() <= 8,
        ensures
            r == 8 - self.bit_index(),
    {
        8 - self.bit_index_in_cur_byte
    }

    /// Writes the low `bits_amount` bits of `bits`, which must not cross the end
    /// of the current byte.
    ///
    /// The byte becomes `(byte & !mask) | (bits << bit_index)`: bits of `bits`
    /// above `bits_amount` are or-ed into the byte too.
    pub fn write_bits(&mut self, bits: u8, bits_amount: usize)
        requires
            old(self).wf(),
            bits_amount <= 8 - old(self).bit_index(),
            old(self).neutral_byte_index() < old(self).buf()@.len(),
        ensures
            final(final(self).buf())@ == final(old(self).buf())@,
            old(self).write_step(bits_amount as nat, *final(self)),
            ({
                let i = physical_byte_index(
                    old(self).buf()@.len() as int,
                    old(self).byte_order(),
                    old(self).neutral_byte_index() as int,
                );
                let b = old(self).bit_index() as int;
                &&& final(self).buf()@.len() == old(self).buf()@.len()
                &&& forall|x: int|
                    0 <= x < old(self).buf()@.len() && x != i ==> final(self).buf()@[x]
                        == old(self).buf()@[x]
                &&& forall|k: int|
                    0 <= k < 8 ==> byte_bit(final(self).buf()@[i], k) == ((byte_bit(
                        old(self).buf()@[i],
                        k,
                    ) && !(b <= k < b + bits_amount)) || (b <= k && byte_bit(bits, k - b)))
            }),
            (forall|k: int| bits_amount <= k < 8 ==> !byte_bit(bits, k)) ==> forall|q: int|
                stream_bit(final(self).buf()@, old(self).byte_order(), q) == if old(
                    self,
                ).bit_position() <= q < old(self).bit_position() + bits_amount {
                    byte_bit(bits, q - old(self).bit_position())
                } else {
                    stream_bit(old(self).buf()@, old(self).byte_order(), q)
                },
    {
        let cur_byte_index = self.cur_byte_index();
        let b = self.bit_index_in_cur_byte;
        let mask = get_bits_mask(b, bits_amount);
        let old_byte = self.bytes[cur_byte_index];
        let s = b as u8;
        let new_byte = (old_byte & !mask) | (bits << s);
        assert forall|k: int| 0 <= k < 8 implies byte_bit(new_byte, k) == ((byte_bit(old_byte, k)
            && !byte_bit(mask, k)) || (b <= k && byte_bit(bits, k - b))) by {
            let kk = k as u8;
            let kb = (k - b) as u8;
            assert((new_byte >> kk) & 1u8 == 1u8 <==> (((old_byte >> kk) & 1u8 == 1u8 && !((mask
                >> kk) & 1u8 == 1u8)) || (s <= kk && (bits >> ((kk - s) as u8)) & 1u8 == 1u8)))
                by (bit_vector)
                requires
                    kk < 8,
                    s < 8,
                    new_byte == (old_byte & !mask) | (bits << s),
            ;
        }
        self.bytes[cur_byte_index] = new_byte;
        let ghost p = old(self).bit_position();
        let ghost j = old(self).neutral_byte_index() as int;
        let ghost len = old(self).buf()@.len() as int;
        proof {
            if forall|k: int| bits_amount <= k < 8 ==> !byte_bit(bits, k) {
                assert forall|q: int| stream_bit(self.buf()@, old(self).byte_order(), q) == if p <= q
                    < p + bits_amount {
                    byte_bit(bits, q - p)
                } else {
                    stream_bit(old(self).buf()@, old(self).byte_order(), q)
                } by {
                    if 0 <= q < 8 * len {
                        if q / 8 == j {
                            assert(q % 8 == q - 8 * j);
                        } else {
                            assert(physical_byte_index(len, old(self).byte_order(), q / 8)
                                != cur_byte_index);
                        }
                    }
                }
            }
        }
        self.bit_index_in_cur_byte += bits_amount;
        if self.bit_index_in_cur_byte == 8 {
            self.endianness_neutral_byte_index += 1;
            self.bit_index_in_cur_byte = 0;
        }
    }
}


/// Copies `bits_amount` bits from the reader to the writer, advancing both.
///
/// The writer's stream ends up holding, at the bits from its position on, the
/// bits of the reader's stream from the reader's position on; every other bit
/// of the writer's stream stays as it was.
pub fn _copy_bits<'a, 'b>(from: &mut LsbBitReader<'a>, to: &mut LsbBitWriter<'b>, bits_amount: usize)
    requires
        old(from).wf(),
        old(to).wf(),
        old(from).bit_position() + bits_amount <= 8 * old(from).bytes().len(),
        old(to).bit_position() + bits_amount <= 8 * old(to).buf()@.len(),
    ensures
        final(from).bytes() == old(from).bytes(),
        final(from).byte_order() == old(from).byte_order(),
        final(from).wf(),
        final(from).bit_position() == old(from).bit_position() + bits_amount,
        final(final(to).buf())@ == final(old(to).buf())@,
        final(to).byte_order() == old(to).byte_order(),
        final(to).wf(),
        final(to).bit_position() == old(to).bit_position() + bits_amount,
        final(to).buf()@.len() == old(to).buf()@.len(),
        forall|q: int|
            stream_bit(final(to).buf()@, old(to).byte_order(), q) == if old(to).bit_position() <= q
                < old(to).bit_position() + bits_amount {
                stream_bit(
                    old(from).bytes(),
                    old(from).byte_order(),
                    old(from).bit_position() + (q - old(to).bit_position()),
                )
            } else {
                stream_bit(old(to).buf()@, old(to).byte_order(), q)
            },
{
    let ghost fp = old(from).bit_position();
    let ghost tp = old(to).bit_position();
    let ghost fbytes = old(from).bytes();
    let ghost fe = old(from).byte_order();
    let ghost tbytes = old(to).buf()@;
    let ghost te = old(to).byte_order();
    let mut bits_left = bits_amount;
    while bits_left > 0
        invariant
            bits_left <= bits_amount,
            from.wf(),
            to.wf(),
            from.bytes() == fbytes,
            from.byte_order() == fe,
            from.bit_position() == fp + (bits_amount - bits_left),
            to.byte_order() == te,
            to.bit_position() == tp + (bits_amount - bits_left),
            to.buf()@.len() == tbytes.len(),
            fp + bits_amount <= 8 * fbytes.len(),
            tp + bits_amount <= 8 * tbytes.len(),
            final(to.buf())@ == final(old(to).buf())@,
            forall|q: int|
                stream_bit(to.buf()@, te, q) == if tp <= q < tp + (bits_amount - bits_left) {
                    stream_bit(fbytes, fe, fp + (q - tp))
                } else {
                    stream_bit(tbytes, te, q)
                },
        decreases bits_left,
    {
        let from_left = from.bits_left_in_cur_byte();
        let to_left = to.bits_left_in_cur_byte();
        let mut cur_amount = if from_left < to_left {
            from_left
        } else {
            to_left
        };
        if bits_left < cur_amount {
            cur_amount = bits_left;
        }
        let ghost rp = from.bit_position();
        let ghost wp = to.bit_position();
        let bits = from.read_bits(cur_amount);
        to.write_bits(bits, cur_amount);
        assert forall|q: int|
            stream_bit(to.buf()@, te, q) == if tp <= q < tp + (bits_amount - bits_left) + cur_amount {
                stream_bit(fbytes, fe, fp + (q - tp))
            } else {
                stream_bit(tbytes, te, q)
            } by {
            if wp <= q < wp + cur_amount {
                assert(byte_bit(bits, q - wp) == stream_bit(fbytes, fe, rp + (q - wp)));
            }
        }
        bits_left -= cur_amount;
    }
}


/// Over a run of `read_bits` calls, a reader moves on by the sum of the bit
/// counts read, keeps its bytes and their order, and stands at bit
/// `bit_position() % 8` of byte `bit_position() / 8` of its stream: from a new
/// reader, after reads that add up to `8 * m + j` bits with `j < 8`, it is at
/// bit `j` of byte `m`.
pub proof fn lemma_read_run<'a>(states: Seq<LsbBitReader<'a>>, amounts: Seq<usize>)
    requires
        LsbBitReader::is_read_run(states, amounts),
        states[0].wf(),
    ensures
        states.last().bytes() == states[0].bytes(),
        states.last().byte_order() == states[0].byte_order(),
        states.last().wf(),
        states.last().bit_position() == states[0].bit_position() + sum_lengths(amounts),
        states.last().neutral_byte_index() == states.last().bit_position() / 8,
        states.last().bit_index() == states.last().bit_position() % 8,
    decreases amounts.len(),
{
    if amounts.len() > 0 {
        let shorter = states.drop_last();
        lemma_read_run(shorter, amounts.drop_last());
        assert(shorter.last() == states[amounts.len() - 1]);
    }
}

/// Over a run of `write_bits` calls, a writer moves on by the sum of the bit
/// counts written, keeps the length of its slice and its byte order, and
/// stands at bit `bit_position() % 8` of byte `bit_position() / 8` of its
/// stream: from a new writer, after writes that add up to `8 * m + j` bits
/// with `j < 8`, it is at bit `j` of byte `m`.
pub proof fn lemma_write_run<'a>(states: Seq<LsbBitWriter<'a>>, amounts: Seq<usize>)
    requires
        LsbBitWriter::is_write_run(states, amounts),
        states[0].wf(),
    ensures
        states.last().buf()@.len() == states[0].buf()@.len(),
        states.last().byte_order() == states[0].byte_order(),
        states.last().wf(),
        states.last().bit_position() == states[0].bit_position() + sum_lengths(amounts),
        states.last().neutral_byte_index() == states.last().bit_position() / 8,
        states.last().bit_index() == states.last().bit_position() % 8,
    decreases amounts.len(),
{
    if amounts.len() > 0 {
        let shorter = states.drop_last();
        lemma_write_run(shorter, amounts.drop_last());
        assert(shorter.last() == states[amounts.len() - 1]);
    }
}

/// Two bytes with the same bits are the same byte.
pub proof fn lemma_byte_bits_ext(x: u8, y: u8)
    requires
        forall|k: int| 0 <= k < 8 ==> byte_bit(x, k) == byte_bit(y, k),
    ensures
        x == y,
{
    assert(byte_bit(x, 0) == byte_bit(y, 0));
    assert(byte_bit(x, 1) == byte_bit(y, 1));
    assert(byte_bit(x, 2) == byte_bit(y, 2));
    assert(byte_bit(x, 3) == byte_bit(y, 3));
    assert(byte_bit(x, 4) == byte_bit(y, 4));
    assert(byte_bit(x, 5) == byte_bit(y, 5));
    assert(byte_bit(x, 6) == byte_bit(y, 6));
    assert(byte_bit(x, 7) == byte_bit(y, 7));
    assert(x == y) by (bit_vector)
        requires
            ((x >> 0u8) & 1u8 == 1u8) == ((y >> 0u8) & 1u8 == 1u8),
            ((x >> 1u8) & 1u8 == 1u8) == ((y >> 1u8) & 1u8 == 1u8),
            ((x >> 2u8) & 1u8 == 1u8) == ((y >> 2u8) & 1u8 == 1u8),
            ((x >> 3u8) & 1u8 == 1u8) == ((y >> 3u8) & 1u8 == 1u8),
            ((x >> 4u8) & 1u8 == 1u8) == ((y >> 4u8) & 1u8 == 1u8),
            ((x >> 5u8) & 1u8 == 1u8) == ((y >> 5u8) & 1u8 == 1u8),
            ((x >> 6u8) & 1u8 == 1u8) == ((y >> 6u8) & 1u8 == 1u8),
            ((x >> 7u8) & 1u8 == 1u8) == ((y >> 7u8) & 1u8 == 1u8),
    ;
}

/// Two byte strings of the same length with the same bit stream are the same.
pub proof fn lemma_stream_bits_ext(a: Seq<u8>, b: Seq<u8>, endianness: Endianness)
    requires
        a.len() == b.len(),
        forall|q: int| stream_bit(a, endianness, q) == stream_bit(b, endianness, q),
    ensures
        a == b,
{
    let len = a.len() as int;
    assert forall|x: int| 0 <= x < len implies a[x] == b[x] by {
        let j = physical_byte_index(len, endianness, x);
        assert(physical_byte_index(len, endianness, j) == x);
        assert forall|k: int| 0 <= k < 8 implies byte_bit(a[x], k) == byte_bit(b[x], k) by {
            let q = 8 * j + k;
            assert(q / 8 == j && q % 8 == k);
            assert(stream_bit(a, endianness, q) == stream_bit(b, endianness, q));
        }
        lemma_byte_bits_ext(a[x], b[x]);
    }
    assert(a =~= b);
}

} // verus!
