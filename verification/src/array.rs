use vstd::prelude::*;
use crate::endianness::Endianness;
use crate::error::DeserializeError;
use crate::serialize::{BinarySerde, BinarySerdeInfallible, BinarySerdeRoundtrip};

verus! {

/// The serializations of the first `k` of `items`, one after the other.
pub open spec fn serialize_items<T: BinarySerde>(
    items: Seq<T>,
    endianness: Endianness,
    k: nat,
) -> Seq<u8>
    decreases k,
{
    if k == 0 {
        Seq::empty()
    } else {
        serialize_items(items, endianness, (k - 1) as nat) + items[k - 1].spec_serialize(
            endianness,
        )
    }
}

/// The bytes of the `i`-th item in a run of serialized items of type `T`.
pub open spec fn item_bytes<T: BinarySerde>(bytes: Seq<u8>, i: int) -> Seq<u8> {
    bytes.subrange(i * T::spec_serialized_size(), (i + 1) * T::spec_serialized_size())
}

/// Deserializes the first `k` items of a run of serialized items, stopping at the first error.
pub open spec fn deserialize_items<T: BinarySerde>(
    bytes: Seq<u8>,
    endianness: Endianness,
    k: nat,
) -> Result<Seq<T>, DeserializeError>
    decreases k,
{
    if k == 0 {
        Ok(Seq::empty())
    } else {
        match deserialize_items::<T>(bytes, endianness, (k - 1) as nat) {
            Err(e) => Err(e),
            Ok(items) => match T::spec_deserialize(item_bytes::<T>(bytes, k - 1), endianness) {
                Ok(v) => Ok(items.push(v)),
                Err(e) => Err(e),
            },
        }
    }
}

/// The array that holds `items`.
pub open spec fn array_of<T, const N: usize>(items: Seq<T>) -> [T; N] {
    choose|a: [T; N]| a@ == items
}

pub proof fn lemma_array_of<T, const N: usize>(a: [T; N])
    ensures
        array_of::<T, N>(a@) == a,
{
    let b = array_of::<T, N>(a@);
    assert(b@ == a@);
    assert(b =~= a);
}

pub proof fn lemma_serialize_items_len<T: BinarySerde>(items: Seq<T>, endianness: Endianness, k: nat)
    requires
        k <= items.len(),
    ensures
        serialize_items(items, endianness, k).len() == k * T::spec_serialized_size(),
    decreases k,
{
    if k == 0 {
        assert(k * T::spec_serialized_size() == 0) by (nonlinear_arith)
            requires
                k == 0,
        ;
    } else {
        let k1 = (k - 1) as nat;
        lemma_serialize_items_len(items, endianness, k1);
        items[k - 1].lemma_serialized_len(endianness);
        let s = T::spec_serialized_size();
        assert(k1 * s + s == k * s) by (nonlinear_arith)
            requires
                k1 + 1 == k,
        ;
    }
}

/// In a run of serialized items, the bytes of item `i` are the serialization of item `i`.
pub proof fn lemma_serialize_items_item<T: BinarySerde>(
    items: Seq<T>,
    endianness: Endianness,
    k: nat,
    i: int,
)
    requires
        0 <= i < k <= items.len(),
    ensures
        item_bytes::<T>(serialize_items(items, endianness, k), i) == items[i].spec_serialize(
            endianness,
        ),
    decreases k,
{
    let s = T::spec_serialized_size();
    let prefix = serialize_items(items, endianness, (k - 1) as nat);
    lemma_serialize_items_len(items, endianness, (k - 1) as nat);
    items[k - 1].lemma_serialized_len(endianness);
    items[i].lemma_serialized_len(endianness);
    assert(i * s + s == (i + 1) * s) by (nonlinear_arith);
    if i < k - 1 {
        lemma_serialize_items_item(items, endianness, (k - 1) as nat, i);
        assert((i + 1) * s <= (k - 1) * s) by (nonlinear_arith)
            requires
                i + 1 <= k - 1,
                s >= 0,
        ;
        assert(0 <= i * s) by (nonlinear_arith)
            requires
                i >= 0,
                s >= 0,
        ;
        assert(item_bytes::<T>(serialize_items(items, endianness, k), i) =~= item_bytes::<T>(
            prefix,
            i,
        ));
    } else {
        assert(item_bytes::<T>(serialize_items(items, endianness, k), i) =~= items[i].spec_serialize(
            endianness,
        ));
    }
}

/// Where every item up to `k` deserializes, the first `k` items deserialize to those values.
pub proof fn lemma_deserialize_items_ok<T: BinarySerde>(
    bytes: Seq<u8>,
    endianness: Endianness,
    k: nat,
    values: Seq<T>,
)
    requires
        k <= values.len(),
        forall|j: int|
            0 <= j < k ==> T::spec_deserialize(item_bytes::<T>(bytes, j), endianness) == Ok::<
                T,
                DeserializeError,
            >(values[j]),
    ensures
        deserialize_items::<T>(bytes, endianness, k) == Ok::<Seq<T>, DeserializeError>(
            values.take(k as int),
        ),
    decreases k,
{
    if k == 0 {
        assert(values.take(0) =~= Seq::<T>::empty());
    } else {
        let k1 = (k - 1) as nat;
        lemma_deserialize_items_ok(bytes, endianness, k1, values);
        assert(T::spec_deserialize(item_bytes::<T>(bytes, k1 as int), endianness) == Ok::<
            T,
            DeserializeError,
        >(values[k1 as int]));
        assert(values.take(k1 as int).push(values[k1 as int]) =~= values.take(k as int));
    }
}

/// Deserializing a run of items fails with the error of the first item that fails.
pub proof fn lemma_deserialize_items_err<T: BinarySerde>(
    bytes: Seq<u8>,
    endianness: Endianness,
    first: nat,
    k: nat,
    e: DeserializeError,
)
    requires
        first < k,
        T::spec_deserialize(item_bytes::<T>(bytes, first as int), endianness) == Err::<
            T,
            DeserializeError,
        >(e),
        forall|j: int|
            0 <= j < first ==> T::spec_deserialize(item_bytes::<T>(bytes, j), endianness) is Ok,
    ensures
        deserialize_items::<T>(bytes, endianness, k) == Err::<Seq<T>, DeserializeError>(e),
    decreases k,
{
    if k == first + 1 {
        lemma_deserialize_items_ok_is_ok::<T>(bytes, endianness, first);
    } else {
        lemma_deserialize_items_err::<T>(bytes, endianness, first, (k - 1) as nat, e);
    }
}

proof fn lemma_deserialize_items_ok_is_ok<T: BinarySerde>(
    bytes: Seq<u8>,
    endianness: Endianness,
    k: nat,
)
    requires
        forall|j: int|
            0 <= j < k ==> T::spec_deserialize(item_bytes::<T>(bytes, j), endianness) is Ok,
    ensures
        deserialize_items::<T>(bytes, endianness, k) is Ok,
    decreases k,
{
    if k > 0 {
        lemma_deserialize_items_ok_is_ok::<T>(bytes, endianness, (k - 1) as nat);
    }
}

/// Whether some call of `f` on `j` can return `Ok`.
spec fn may_succeed<T, E, F: Fn(usize) -> Result<T, E>>(f: F, j: usize) -> bool {
    exists|v: T| call_ensures(f, (j,), Ok::<T, E>(v))
}

/// Calls `array_init::try_array_init`, which calls `initializer` on `0`, `1`, ...,
/// `N - 1` in turn and returns the array of the results, or the first error it meets.
#[verifier::external_body]
fn try_array_init<T, E, F, const N: usize>(initializer: F) -> (r: Result<[T; N], E>) where
    F: Fn(usize) -> Result<T, E>,

    requires
        forall|i: usize| i < N ==> call_requires(initializer, (i,)),
    ensures
        r matches Ok(a) ==> forall|i: int|
            0 <= i < N ==> call_ensures(initializer, (i as usize,), Ok::<T, E>(a@[i])),
        r matches Err(e) ==> exists|k: usize|
            k < N && call_ensures(initializer, (k,), Err::<T, E>(e)) && forall|j: usize|
                j < k ==> #[trigger] may_succeed(initializer, j),
{
    array_init::try_array_init(initializer)
}

/// Deserializes item `i` of a run of `n` serialized items of type `T`.
fn deserialize_item<T: BinarySerde>(buf: &[u8], n: usize, i: usize, endianness: Endianness) -> (r:
    Result<T, DeserializeError>)
    requires
        i < n,
        buf@.len() == n * T::spec_serialized_size(),
    ensures
        r == T::spec_deserialize(item_bytes::<T>(buf@, i as int), endianness),
{
    let ghost s = T::spec_serialized_size();
    let _len = buf.len();
    proof {
        T::lemma_serialized_size();
        assert((i + 1) * s <= n * s) by (nonlinear_arith)
            requires
                i + 1 <= n,
                s >= 0,
        ;
        assert(i * s + s == (i + 1) * s) by (nonlinear_arith);
        assert(0 <= i * s) by (nonlinear_arith)
            requires
                s >= 0,
        ;
        assert(s <= (i + 1) * s) by (nonlinear_arith)
            requires
                s >= 0,
                i >= 0,
        ;
    }
    let size = T::SERIALIZED_SIZE;
    let start = i * size;
    T::binary_deserialize(&buf[start..start + size], endianness)
}

impl<const N: usize, T: BinarySerde> BinarySerde for [T; N] {
    const SERIALIZED_SIZE: usize = T::SERIALIZED_SIZE * N;

    open spec fn spec_serialized_size() -> nat {
        T::spec_serialized_size() * (N as nat)
    }

    proof fn lemma_serialized_size() {
        assert(Self::SERIALIZED_SIZE == (T::SERIALIZED_SIZE * N) as usize);
        T::lemma_serialized_size();
        if N > 0 && T::spec_serialized_size() * N <= usize::MAX {
            assert(T::spec_serialized_size() <= T::spec_serialized_size() * N) by (nonlinear_arith)
                requires
                    N > 0,
            ;
        }
    }

    /// The serializations of the items, one after the other.
    open spec fn spec_serialize(&self, endianness: Endianness) -> Seq<u8> {
        serialize_items(self@, endianness, N as nat)
    }

    /// The items, each deserialized from its own bytes, or the first error.
    open spec fn spec_deserialize(bytes: Seq<u8>, endianness: Endianness) -> Result<
        Self,
        DeserializeError,
    > {
        match deserialize_items::<T>(bytes, endianness, N as nat) {
            Ok(items) => Ok(array_of::<T, N>(items)),
            Err(e) => Err(e),
        }
    }

    proof fn lemma_serialized_len(&self, endianness: Endianness) {
        lemma_serialize_items_len(self@, endianness, N as nat);
    }

    fn binary_serialize(&self, buf: &mut [u8], endianness: Endianness) {
        let ghost s = T::spec_serialized_size();
        let ghost total = buf@.len();
        let _len = buf.len();
        proof {
            T::lemma_serialized_size();
            assert(s * N == N * s) by (nonlinear_arith);
            if N > 0 {
                assert(s <= N * s) by (nonlinear_arith)
                    requires
                        N > 0,
                ;
            }
        }
        let mut i: usize = 0;
        while i < N
            invariant
                i <= N,
                s == T::spec_serialized_size(),
                total == N * s,
                buf@.len() == total,
                total <= usize::MAX,
                N > 0 ==> T::SERIALIZED_SIZE == s,
                buf@.subrange(0, i * s) == serialize_items(self@, endianness, i as nat),
            decreases N - i,
        {
            proof {
                assert((i + 1) * s <= N * s) by (nonlinear_arith)
                    requires
                        i + 1 <= N,
                        s >= 0,
                ;
                assert(i * s + s == (i + 1) * s) by (nonlinear_arith);
                assert(0 <= i * s) by (nonlinear_arith)
                    requires
                        s >= 0,
                ;
                lemma_serialize_items_len(self@, endianness, i as nat);
                self@[i as int].lemma_serialized_len(endianness);
            }
            let size = T::SERIALIZED_SIZE;
            let start = i * size;
            let (left, rest) = buf.split_at_mut(start);
            let (chunk, right) = rest.split_at_mut(size);
            self[i].binary_serialize(chunk, endianness);
            assert(buf@.subrange(0, (i + 1) * s) =~= serialize_items(
                self@,
                endianness,
                (i + 1) as nat,
            ));
            i = i + 1;
        }
        assert(buf@.subrange(0, N * s) =~= buf@);
    }

    fn binary_deserialize(buf: &[u8], endianness: Endianness) -> (r: Result<Self, DeserializeError>) {
        let f = |i: usize| -> (r: Result<T, DeserializeError>)
            requires
                i < N,
                buf@.len() == N * T::spec_serialized_size(),
            ensures
                r == T::spec_deserialize(item_bytes::<T>(buf@, i as int), endianness),
            { deserialize_item::<T>(buf, N, i, endianness) };
        let r: Result<[T; N], DeserializeError> = try_array_init(f);
        proof {
            let rr = r;
            match rr {
                Ok(a) => {
                    assert forall|j: int| 0 <= j < N implies T::spec_deserialize(
                        item_bytes::<T>(buf@, j),
                        endianness,
                    ) == Ok::<T, DeserializeError>(a@[j]) by {
                        assert(call_ensures(f, (j as usize,), Ok::<T, DeserializeError>(a@[j])));
                    }
                    lemma_deserialize_items_ok::<T>(buf@, endianness, N as nat, a@);
                    assert(a@.take(N as int) =~= a@);
                    lemma_array_of(a);
                },
                Err(e) => {
                    let k = choose|k: usize|
                        k < N && call_ensures(f, (k,), Err::<T, DeserializeError>(e)) && forall|
                            j: usize,
                        | j < k ==> #[trigger] may_succeed(f, j);
                    assert forall|j: int| 0 <= j < k implies T::spec_deserialize(
                        item_bytes::<T>(buf@, j),
                        endianness,
                    ) is Ok by {
                        assert(may_succeed(f, j as usize));
                        let v = choose|v: T| call_ensures(f, (j as usize,), Ok::<T, DeserializeError>(v));
                    }
                    lemma_deserialize_items_err::<T>(buf@, endianness, k as nat, N as nat, e);
                },
            }
        }
        r
    }
}

impl<const N: usize, T: BinarySerdeRoundtrip> BinarySerdeRoundtrip for [T; N] {
    proof fn lemma_roundtrip(&self, endianness: Endianness) {
        let bytes = self.spec_serialize(endianness);
        assert forall|j: int| 0 <= j < N implies T::spec_deserialize(
            item_bytes::<T>(bytes, j),
            endianness,
        ) == Ok::<T, DeserializeError>(self@[j]) by {
            lemma_serialize_items_item(self@, endianness, N as nat, j);
            self@[j].lemma_roundtrip(endianness);
        }
        lemma_deserialize_items_ok::<T>(bytes, endianness, N as nat, self@);
        assert(self@.take(N as int) =~= self@);
        lemma_array_of(*self);
    }
}

impl<const N: usize, T: BinarySerdeInfallible> BinarySerdeInfallible for [T; N] {
    proof fn lemma_deserialize_ok(bytes: Seq<u8>, endianness: Endianness) {
        let s = T::spec_serialized_size();
        assert forall|j: int| 0 <= j < N implies T::spec_deserialize(
            #[trigger] item_bytes::<T>(bytes, j),
            endianness,
        ) is Ok by {
            assert((j + 1) * s <= N * s) by (nonlinear_arith)
                requires
                    j + 1 <= N,
                    s >= 0,
            ;
            assert(0 <= j * s) by (nonlinear_arith)
                requires
                    j >= 0,
                    s >= 0,
            ;
            assert(j * s + s == (j + 1) * s) by (nonlinear_arith);
            assert(s * N == N * s) by (nonlinear_arith);
            T::lemma_deserialize_ok(item_bytes::<T>(bytes, j), endianness);
        }
        lemma_deserialize_items_ok_is_ok::<T>(bytes, endianness, N as nat);
    }
}

} // verus!
