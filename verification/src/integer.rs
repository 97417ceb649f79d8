use vstd::prelude::*;
use vstd::arithmetic::div_mod::{
    lemma_mod_breakdown, lemma_small_mod, lemma_mod_multiples_vanish, lemma_basic_div,
    lemma_div_denominator, lemma_fundamental_div_mod, lemma_hoist_over_denominator,
    lemma_mod_pos_bound,
};
use vstd::arithmetic::power2::{
    pow2, lemma2_to64, lemma_pow2_adds, lemma_pow2_pos, lemma_pow2_strictly_increases,
    lemma_pow2_unfold,
};
use vstd::bits::lemma_u8_shr_is_div;
use crate::endianness::Endianness;
use crate::bits::{byte_bit, physical_byte_index, stream_bit};

verus! {

/// `256` to the power `n`.
pub open spec fn pow256(n: nat) -> nat
    decreases n,
{
    if n == 0 {
        1
    } else {
        256 * pow256((n - 1) as nat)
    }
}

/// The `n` lowest bytes of `v`, least significant first.
pub open spec fn le_bytes(v: nat, n: nat) -> Seq<u8>
    decreases n,
{
    if n == 0 {
        Seq::empty()
    } else {
        seq![(v % 256) as u8] + le_bytes(v / 256, (n - 1) as nat)
    }
}

/// The number whose bytes, least significant first, are `s`.
pub open spec fn le_value(s: Seq<u8>) -> nat
    decreases s.len(),
{
    if s.len() == 0 {
        0
    } else {
        s[0] as nat + 256 * le_value(s.drop_first())
    }
}

/// Puts bytes that are given least significant first into the order of `endianness`
/// (and back: the reordering is its own inverse).
pub open spec fn ordered_bytes(s: Seq<u8>, endianness: Endianness) -> Seq<u8> {
    match endianness {
        Endianness::Little => s,
        Endianness::Big => s.reverse(),
    }
}

/// The `n` bytes of the unsigned number `v`, in the order of `endianness`.
pub open spec fn uint_bytes(v: nat, n: nat, endianness: Endianness) -> Seq<u8> {
    ordered_bytes(le_bytes(v, n), endianness)
}

/// The unsigned number that `bytes` hold in the order of `endianness`.
pub open spec fn uint_value(bytes: Seq<u8>, endianness: Endianness) -> nat {
    le_value(ordered_bytes(bytes, endianness))
}

/// The `n` bytes of the two's complement form of `v`, in the order of `endianness`.
pub open spec fn int_bytes(v: int, n: nat, endianness: Endianness) -> Seq<u8> {
    uint_bytes((v % (pow256(n) as int)) as nat, n, endianness)
}

/// The signed number that `bytes` hold in two's complement, in the order of `endianness`.
pub open spec fn int_value(bytes: Seq<u8>, endianness: Endianness) -> int {
    let u = uint_value(bytes, endianness);
    if u >= pow256(bytes.len()) / 2 {
        u - pow256(bytes.len())
    } else {
        u as int
    }
}

pub proof fn lemma_pow256_values()
    ensures
        pow256(1) == 0x100,
        pow256(2) == 0x1_0000,
        pow256(4) == 0x1_0000_0000,
        pow256(8) == 0x1_0000_0000_0000_0000,
        pow256(15) == 0x1000000000000000000000000000000,
        pow256(16) == 0x1_0000_0000_0000_0000_0000_0000_0000_0000,
{
    reveal_with_fuel(pow256, 17);
}

pub proof fn lemma_pow256_positive(n: nat)
    ensures
        pow256(n) > 0,
    decreases n,
{
    if n > 0 {
        lemma_pow256_positive((n - 1) as nat);
    }
}

pub proof fn lemma_pow256_monotonic(m: nat, n: nat)
    requires
        m <= n,
    ensures
        pow256(m) <= pow256(n),
    decreases n,
{
    if m < n {
        lemma_pow256_monotonic(m, (n - 1) as nat);
        lemma_pow256_positive((n - 1) as nat);
    }
}

pub proof fn lemma_le_bytes_len(v: nat, n: nat)
    ensures
        le_bytes(v, n).len() == n,
    decreases n,
{
    if n > 0 {
        lemma_le_bytes_len(v / 256, (n - 1) as nat);
    }
}

/// Reading back the bytes of `v` gives `v` modulo `256^n`.
pub proof fn lemma_le_value_of_le_bytes(v: nat, n: nat)
    ensures
        le_value(le_bytes(v, n)) == v % pow256(n),
    decreases n,
{
    if n > 0 {
        let s = le_bytes(v, n);
        lemma_le_bytes_len(v, n);
        assert(s.drop_first() =~= le_bytes(v / 256, (n - 1) as nat));
        lemma_le_value_of_le_bytes(v / 256, (n - 1) as nat);
        lemma_pow256_positive((n - 1) as nat);
        lemma_mod_breakdown(v as int, 256, pow256((n - 1) as nat) as int);
    }
}

/// A number below `256^len` is read from `len` bytes.
pub proof fn lemma_le_value_bound(s: Seq<u8>)
    ensures
        le_value(s) < pow256(s.len()),
    decreases s.len(),
{
    if s.len() > 0 {
        lemma_le_value_bound(s.drop_first());
        assert(le_value(s.drop_first()) + 1 <= pow256((s.len() - 1) as nat));
        assert(256 * le_value(s.drop_first()) + 256 <= 256 * pow256((s.len() - 1) as nat))
            by (nonlinear_arith)
            requires
                le_value(s.drop_first()) + 1 <= pow256((s.len() - 1) as nat),
        ;
    }
}

/// Writing back the number that bytes hold gives the same bytes.
pub proof fn lemma_le_bytes_of_le_value(s: Seq<u8>)
    ensures
        le_bytes(le_value(s), s.len()) == s,
    decreases s.len(),
{
    if s.len() > 0 {
        let v = le_value(s);
        let rest = le_value(s.drop_first());
        assert(v % 256 == s[0] as nat && v / 256 == rest) by {
            assert(v == s[0] as nat + 256 * rest);
        }
        lemma_le_bytes_of_le_value(s.drop_first());
        assert(le_bytes(v, s.len()) =~= s);
    }
}

/// Only the value of `v` modulo `256^n` shows in its `n` bytes.
pub proof fn lemma_le_bytes_mod(v: nat, n: nat)
    ensures
        le_bytes(v, n) == le_bytes(v % pow256(n), n),
    decreases n,
{
    if n > 0 {
        let m = pow256((n - 1) as nat);
        lemma_pow256_positive((n - 1) as nat);
        lemma_mod_breakdown(v as int, 256, m as int);
        let w = v % pow256(n);
        assert(w % 256 == v % 256) by {
            assert(w == 256 * ((v / 256) % m) + v % 256);
        }
        assert(w / 256 == (v / 256) % m) by {
            assert(w == 256 * ((v / 256) % m) + v % 256);
        }
        lemma_le_bytes_mod(v / 256, (n - 1) as nat);
    }
}

pub proof fn lemma_ordered_bytes_involution(s: Seq<u8>, endianness: Endianness)
    ensures
        ordered_bytes(ordered_bytes(s, endianness), endianness) == s,
        ordered_bytes(s, endianness).len() == s.len(),
{
    if endianness == Endianness::Big {
        assert(s.reverse().reverse() =~= s);
    }
}

/// Reading an unsigned number back from its bytes gives the number.
pub proof fn lemma_uint_roundtrip(v: nat, n: nat, endianness: Endianness)
    requires
        v < pow256(n),
    ensures
        uint_bytes(v, n, endianness).len() == n,
        uint_value(uint_bytes(v, n, endianness), endianness) == v,
{
    lemma_le_bytes_len(v, n);
    lemma_ordered_bytes_involution(le_bytes(v, n), endianness);
    lemma_le_value_of_le_bytes(v, n);
    lemma_small_mod(v, pow256(n));
}

/// Every byte string holds an unsigned number whose bytes are that string again.
pub proof fn lemma_uint_bytes_of_value(bytes: Seq<u8>, endianness: Endianness)
    ensures
        uint_bytes(uint_value(bytes, endianness), bytes.len(), endianness) == bytes,
        uint_value(bytes, endianness) < pow256(bytes.len()),
{
    let s = ordered_bytes(bytes, endianness);
    lemma_ordered_bytes_involution(bytes, endianness);
    lemma_le_bytes_of_le_value(s);
    lemma_le_value_bound(s);
}

/// Reading a signed number back from its two's complement bytes gives the number.
pub proof fn lemma_int_roundtrip(v: int, n: nat, endianness: Endianness)
    requires
        n > 0,
        -(pow256(n) as int) / 2 <= v < (pow256(n) as int) / 2,
    ensures
        int_bytes(v, n, endianness).len() == n,
        int_value(int_bytes(v, n, endianness), endianness) == v,
{
    lemma_pow256_positive(n);
    let p = pow256(n) as int;
    let u = v % p;
    assert(p % 2 == 0) by {
        assert(p == 256 * pow256((n - 1) as nat));
    }
    if v >= 0 {
        lemma_small_mod(v as nat, p as nat);
    } else {
        lemma_small_mod((v + p) as nat, p as nat);
        lemma_mod_multiples_vanish(-1, v + p, p);
    }
    lemma_uint_roundtrip(u as nat, n, endianness);
}

/// The `n` bytes of `value`, least significant first.
fn le_bytes_of(value: u128, n: usize) -> (r: Vec<u8>)
    ensures
        r@ == le_bytes(value as nat, n as nat),
{
    let mut r: Vec<u8> = Vec::new();
    let mut x = value;
    let mut i: usize = 0;
    while i < n
        invariant
            i <= n,
            le_bytes(value as nat, n as nat) == r@ + le_bytes(x as nat, (n - i) as nat),
        decreases n - i,
    {
        let ghost old_r = r@;
        assert(le_bytes(x as nat, (n - i) as nat) == seq![(x % 256) as u8] + le_bytes(
            (x / 256) as nat,
            (n - i - 1) as nat,
        ));
        r.push((x % 256) as u8);
        assert(old_r + le_bytes(x as nat, (n - i) as nat) =~= r@ + le_bytes(
            (x / 256) as nat,
            (n - i - 1) as nat,
        ));
        x = x / 256;
        i = i + 1;
    }
    assert(r@ + le_bytes(x as nat, 0) =~= r@);
    r
}

/// Writes the `buf.len()` lowest bytes of `value` into `buf`, in the order of `endianness`.
pub fn write_uint(value: u128, buf: &mut [u8], endianness: Endianness)
    ensures
        final(buf)@ == uint_bytes(value as nat, old(buf)@.len(), endianness),
{
    let n = buf.len();
    let le = le_bytes_of(value, n);
    proof {
        lemma_le_bytes_len(value as nat, n as nat);
    }
    let mut i: usize = 0;
    while i < n
        invariant
            i <= n,
            n == buf@.len(),
            le@.len() == n,
            le@ == le_bytes(value as nat, n as nat),
            forall|k: int|
                0 <= k < i ==> buf@[physical_byte_index(n as int, endianness, k)] == le@[k],
        decreases n - i,
    {
        let idx = match endianness {
            Endianness::Little => i,
            Endianness::Big => n - 1 - i,
        };
        buf[idx] = le[i];
        i = i + 1;
    }
    assert(buf@ =~= ordered_bytes(le@, endianness)) by {
        if endianness == Endianness::Big {
            assert forall|x: int| 0 <= x < n implies buf@[x] == le@.reverse()[x] by {
                assert(physical_byte_index(n as int, endianness, n - 1 - x) == x);
            }
        }
    }
}

/// Reads the unsigned number that `buf` holds in the order of `endianness`.
pub fn read_uint(buf: &[u8], endianness: Endianness) -> (r: u128)
    requires
        buf@.len() <= 16,
    ensures
        r == uint_value(buf@, endianness),
{
    let n = buf.len();
    let ghost s = ordered_bytes(buf@, endianness);
    proof {
        lemma_ordered_bytes_involution(buf@, endianness);
        lemma_pow256_values();
    }
    let mut acc: u128 = 0;
    let mut k: usize = n;
    assert(s.subrange(n as int, n as int) =~= Seq::<u8>::empty());
    while k > 0
        invariant
            k <= n,
            n == buf@.len(),
            n <= 16,
            s == ordered_bytes(buf@, endianness),
            s.len() == n,
            acc == le_value(s.subrange(k as int, n as int)),
            pow256(16) == 0x1_0000_0000_0000_0000_0000_0000_0000_0000,
        decreases k,
    {
        let idx = match endianness {
            Endianness::Little => k - 1,
            Endianness::Big => n - k,
        };
        let byte = buf[idx];
        assert(byte == s[k - 1]);
        let ghost tail = s.subrange(k as int, n as int);
        let ghost longer = s.subrange(k - 1, n as int);
        assert(longer.drop_first() =~= tail);
        proof {
            lemma_le_value_bound(tail);
            lemma_pow256_monotonic(tail.len(), 15);
            assert(pow256(16) == 256 * pow256(15));
        }
        acc = acc * 256 + byte as u128;
        k = k - 1;
    }
    assert(s.subrange(0, n as int) =~= s);
    acc
}


pub proof fn lemma_pow256_add(m: nat, n: nat)
    ensures
        pow256(m + n) == pow256(m) * pow256(n),
    decreases n,
{
    if n == 0 {
        assert(m + n == m);
        assert(pow256(n) == 1);
        assert(pow256(m) * pow256(n) == pow256(m)) by (nonlinear_arith)
            requires
                pow256(n) == 1,
        ;
    } else {
        let k = (n - 1) as nat;
        lemma_pow256_add(m, k);
        assert(m + n == (m + k) + 1);
        assert(pow256(m + n) == 256 * pow256(m + k));
        assert(pow256(m) * pow256(n) == pow256(m) * (256 * pow256((n - 1) as nat)));
        assert(pow256(m) * (256 * pow256((n - 1) as nat)) == 256 * (pow256(m) * pow256(
            (n - 1) as nat,
        ))) by (nonlinear_arith);
    }
}

/// A signed number read from bytes lies in the range of a two's complement number of that size.
pub proof fn lemma_int_value_range(bytes: Seq<u8>, endianness: Endianness)
    requires
        bytes.len() > 0,
    ensures
        -(pow256(bytes.len()) as int) / 2 <= int_value(bytes, endianness) < (pow256(bytes.len()) as int) / 2,
        int_value(bytes, endianness) >= 0 ==> int_value(bytes, endianness) == uint_value(bytes, endianness),
{
    lemma_le_value_bound(ordered_bytes(bytes, endianness));
    lemma_ordered_bytes_involution(bytes, endianness);
    assert(pow256(bytes.len()) == 256 * pow256((bytes.len() - 1) as nat));
}

/// Writes the `buf.len()` lowest bytes of the two's complement form of `value`.
pub fn write_int(value: i128, buf: &mut [u8], endianness: Endianness)
    requires
        old(buf)@.len() <= 16,
    ensures
        final(buf)@ == int_bytes(value as int, old(buf)@.len(), endianness),
{
    let ghost n = buf@.len();
    let u: u128 = if value < 0 {
        u128::MAX - ((-(value + 1)) as u128)
    } else {
        value as u128
    };
    proof {
        lemma_pow256_values();
        lemma_pow256_add(n, (16 - n) as nat);
        lemma_pow256_positive(n);
        lemma_pow256_positive((16 - n) as nat);
        let p = pow256(n) as int;
        lemma_le_bytes_mod(u as nat, n);
        if value < 0 {
            assert(u == value + pow256(16));
            lemma_mod_multiples_vanish(pow256((16 - n) as nat) as int, value as int, p);
            assert(pow256(16) == p * pow256((16 - n) as nat));
        }
        assert((u as int) % p == (value as int) % p);
    }
    write_uint(u, buf, endianness);
}

/// `256^(n-1)`, for `1 <= n <= 16`.
fn pow256_below(n: usize) -> (r: u128)
    requires
        1 <= n <= 16,
    ensures
        r == pow256((n - 1) as nat),
{
    proof {
        lemma_pow256_values();
    }
    let mut p: u128 = 1;
    let mut i: usize = 1;
    while i < n
        invariant
            1 <= i <= n <= 16,
            p == pow256((i - 1) as nat),
            pow256(16) == 0x1_0000_0000_0000_0000_0000_0000_0000_0000,
        decreases n - i,
    {
        proof {
            lemma_pow256_monotonic(i as nat, 15);
            assert(pow256(16) == 256 * pow256(15));
        }
        p = p * 256;
        i = i + 1;
    }
    p
}

/// Reads the signed number that `buf` holds in two's complement, in the order of `endianness`.
pub fn read_int(buf: &[u8], endianness: Endianness) -> (r: i128)
    requires
        1 <= buf@.len() <= 16,
    ensures
        r == int_value(buf@, endianness),
{
    let n = buf.len();
    let u = read_uint(buf, endianness);
    proof {
        lemma_pow256_values();
        lemma_pow256_monotonic((n - 1) as nat, 15);
        assert(pow256(16) == 256 * pow256(15));
    }
    let below = pow256_below(n);
    proof {
        lemma_pow256_positive((n - 1) as nat);
        assert(below <= pow256(15));
        assert(pow256(15) == 0x1000000000000000000000000000000);
    }
    let half: u128 = below * 128;
    let top: u128 = half - 1 + half;
    proof {
        lemma_le_value_bound(ordered_bytes(buf@, endianness));
        lemma_ordered_bytes_involution(buf@, endianness);
        assert(pow256(n as nat) == 256 * pow256((n - 1) as nat));
        lemma_pow256_values();
        lemma_pow256_monotonic((n - 1) as nat, 15);
    }
    if u < half {
        u as i128
    } else {
        -((top - u) as i128) - 1
    }
}

/// `256^n` is `2^(8n)`.
pub proof fn lemma_pow256_is_pow2(n: nat)
    ensures
        pow256(n) == pow2(8 * n),
    decreases n,
{
    lemma2_to64();
    if n > 0 {
        lemma_pow256_is_pow2((n - 1) as nat);
        lemma_pow2_adds(8, (8 * (n - 1)) as nat);
        assert(8 + 8 * (n - 1) == 8 * n);
    }
}

/// Byte `j` of the `n` lowest bytes of `v` is digit `j` of `v` in base 256.
pub proof fn lemma_le_bytes_index(v: nat, n: nat, j: int)
    requires
        0 <= j < n,
    ensures
        le_bytes(v, n)[j] == ((v / pow256(j as nat)) % 256) as u8,
    decreases n,
{
    lemma_le_bytes_len(v, n);
    if j > 0 {
        lemma_le_bytes_len(v / 256, (n - 1) as nat);
        lemma_le_bytes_index(v / 256, (n - 1) as nat, j - 1);
        assert(le_bytes(v, n)[j] == le_bytes(v / 256, (n - 1) as nat)[j - 1]);
        lemma_pow256_positive((j - 1) as nat);
        lemma_div_denominator(v as int, 256, pow256((j - 1) as nat) as int);
    } else {
        assert(v / 1 == v);
    }
}

/// Bit `k` of a byte is digit `k` of its value in base 2.
pub proof fn lemma_byte_bit_value(b: u8, k: int)
    requires
        0 <= k < 8,
    ensures
        byte_bit(b, k) == ((b as nat / pow2(k as nat)) % 2 == 1),
{
    let kk = k as u8;
    lemma_u8_shr_is_div(b, kk);
    let x = b >> kk;
    assert((x & 1u8 == 1u8) == (x % 2 == 1)) by (bit_vector);
}

/// Below bit `m`, `x mod 2^m` has the bits of `x`.
pub proof fn lemma_mod_pow2_bit(x: nat, m: nat, k: nat)
    requires
        k < m,
    ensures
        ((x % pow2(m)) / pow2(k)) % 2 == (x / pow2(k)) % 2,
{
    let p = pow2(k);
    let t = pow2((m - k - 1) as nat);
    lemma_pow2_pos(k);
    lemma_pow2_pos(m);
    lemma_pow2_adds(k, (m - k) as nat);
    lemma_pow2_unfold((m - k) as nat);
    let a = x / pow2(m);
    let r = x % pow2(m);
    lemma_fundamental_div_mod(x as int, pow2(m) as int);
    lemma_mod_pos_bound(x as int, pow2(m) as int);
    assert(x == r + (2 * (a * t)) * p) by (nonlinear_arith)
        requires
            x == pow2(m) * a + r,
            pow2(m) == p * (2 * t),
    ;
    lemma_hoist_over_denominator(r as int, (2 * (a * t)) as int, p);
    lemma_mod_multiples_vanish((a * t) as int, r as int / p as int, 2);
}

/// Bit `q` of the bit stream that the `n` bytes of `v` form is digit `q` of
/// `v` in base 2, for every `q` below `8 * n`; there are no other bits.
pub proof fn lemma_uint_bytes_stream_bit(v: nat, n: nat, endianness: Endianness, q: int)
    ensures
        stream_bit(uint_bytes(v, n, endianness), endianness, q) == (0 <= q < 8 * n && (v
            / pow2(q as nat)) % 2 == 1),
{
    lemma_le_bytes_len(v, n);
    lemma_ordered_bytes_involution(le_bytes(v, n), endianness);
    if 0 <= q < 8 * n {
        let j = q / 8;
        let k = q % 8;
        let bytes = uint_bytes(v, n, endianness);
        assert(bytes[physical_byte_index(n as int, endianness, j)] == le_bytes(v, n)[j]);
        lemma_le_bytes_index(v, n, j);
        let x = v / pow256(j as nat);
        lemma_byte_bit_value((x % 256) as u8, k);
        lemma2_to64();
        lemma_mod_pow2_bit(x, 8, k as nat);
        lemma_pow256_is_pow2(j as nat);
        lemma_pow256_positive(j as nat);
        lemma_pow2_pos(k as nat);
        lemma_div_denominator(v as int, pow256(j as nat) as int, pow2(k as nat) as int);
        lemma_pow2_adds((8 * j) as nat, k as nat);
        assert(q == 8 * j + k);
    }
}

/// The bytes of a value below `2^m` have no bit set at or past bit `m` of
/// their bit stream.
pub proof fn lemma_uint_bytes_fit(v: nat, m: nat, n: nat, endianness: Endianness)
    requires
        v < pow2(m),
    ensures
        forall|q: int| q >= m ==> !#[trigger] stream_bit(uint_bytes(v, n, endianness), endianness, q),
{
    assert forall|q: int| q >= m implies !#[trigger] stream_bit(
        uint_bytes(v, n, endianness),
        endianness,
        q,
    ) by {
        lemma_uint_bytes_stream_bit(v, n, endianness, q);
        if q > m {
            lemma_pow2_strictly_increases(m, q as nat);
        }
        lemma_pow2_pos(q as nat);
        lemma_basic_div(v as int, pow2(q as nat) as int);
    }
}

} // verus!
