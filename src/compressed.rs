//! Compact wire forms of keys. A secret key whose vector is a bit vector
//! packs that vector into bytes, most significant bit first.
use vstd::prelude::*;

use crate::fe::{all_decode, copy_encodings, DdhFeCiphertext, DdhFePublicKey, DdhFeSecretKey};
use crate::fuzzy_hashes::bit_at;
use crate::group::{bytes_eq, decodes, point_decodes, scalar_from_u8, small_scalar, views, Bytes32};

verus! {

/// A secret key whose vector holds only zeros and ones, packed into bytes.
pub struct CompressedDdhFeSecretKey {
    pub g: Bytes32,
    pub sx: Bytes32,
    pub tx: Bytes32,
    pub x: Vec<u8>,
}

/// A public key as it arrives from the wire, not yet checked.
pub struct CompressedDdhFePublicKey {
    pub g: Bytes32,
    pub h: Bytes32,
    pub mpk: Vec<Bytes32>,
}

/// Whether every entry of a key's vector is the scalar 0 or the scalar 1.
pub open spec fn is_bit_key(x: Seq<Seq<u8>>) -> bool {
    forall|i: int| 0 <= i < x.len() ==> #[trigger] x[i] == small_scalar(0) || x[i] == small_scalar(1)
}

/// The bits of a key's vector.
pub open spec fn key_bits(x: Seq<Seq<u8>>) -> Seq<u8> {
    x.map_values(|s: Seq<u8>| if s == small_scalar(1) { 1u8 } else { 0u8 })
}

/// Whether `packed` holds `bits`, eight to a byte and most significant bit first,
/// in `ceil(len / 8)` bytes whose spare low bits are zero.
pub open spec fn packs(packed: Seq<u8>, bits: Seq<u8>) -> bool {
    &&& packed.len() == (bits.len() + 7) / 8
    &&& forall|i: int|
        0 <= i < packed.len() * 8 ==> #[trigger] bit_at(packed, i) == if i < bits.len() {
            bits[i]
        } else {
            0u8
        }
}

/// Whether `c` is the compact form of the key `k`.
pub open spec fn compresses_to<const N: usize>(k: DdhFeSecretKey<N>, c: CompressedDdhFeSecretKey) -> bool {
    &&& c.g == k.g
    &&& c.sx == k.sx
    &&& c.tx == k.tx
    &&& packs(c.x@, key_bits(views(k.x@)))
}

/// Whether `k` is the key that the compact form `c` stands for.
pub open spec fn decompresses_to<const N: usize>(c: CompressedDdhFeSecretKey, k: DdhFeSecretKey<N>) -> bool {
    &&& k.g == c.g
    &&& k.sx == c.sx
    &&& k.tx == c.tx
    &&& views(k.x@) == unpacked_key(c.x@, N as nat)
    &&& k.wf()
}

/// Whether the compact form `c` can be unpacked into a key for vectors of length `N`.
pub open spec fn decompressible<const N: usize>(c: CompressedDdhFeSecretKey) -> bool {
    c.x.len() == (N + 7) / 8 && decodes(c.g@)
}

/// The first `n` bits of `packed`, each as a scalar.
pub open spec fn unpacked_key(packed: Seq<u8>, n: nat) -> Seq<Seq<u8>> {
    Seq::new(n, |i: int| small_scalar(bit_at(packed, i)))
}

proof fn lemma_pack8(b0: u8, b1: u8, b2: u8, b3: u8, b4: u8, b5: u8, b6: u8, b7: u8)
    requires
        b0 <= 1,
        b1 <= 1,
        b2 <= 1,
        b3 <= 1,
        b4 <= 1,
        b5 <= 1,
        b6 <= 1,
        b7 <= 1,
    ensures
        ({
            let p = (b0 << 7u8) | (b1 << 6u8) | (b2 << 5u8) | (b3 << 4u8) | (b4 << 3u8) | (b5 << 2u8)
                | (b6 << 1u8) | b7;
            &&& (p >> 7u8) & 1u8 == b0
            &&& (p >> 6u8) & 1u8 == b1
            &&& (p >> 5u8) & 1u8 == b2
            &&& (p >> 4u8) & 1u8 == b3
            &&& (p >> 3u8) & 1u8 == b4
            &&& (p >> 2u8) & 1u8 == b5
            &&& (p >> 1u8) & 1u8 == b6
            &&& (p >> 0u8) & 1u8 == b7
        }),
{
    assert({
        let p = (b0 << 7u8) | (b1 << 6u8) | (b2 << 5u8) | (b3 << 4u8) | (b4 << 3u8) | (b5 << 2u8)
            | (b6 << 1u8) | b7;
        &&& (p >> 7u8) & 1u8 == b0
        &&& (p >> 6u8) & 1u8 == b1
        &&& (p >> 5u8) & 1u8 == b2
        &&& (p >> 4u8) & 1u8 == b3
        &&& (p >> 3u8) & 1u8 == b4
        &&& (p >> 2u8) & 1u8 == b5
        &&& (p >> 1u8) & 1u8 == b6
        &&& (p >> 0u8) & 1u8 == b7
    }) by (bit_vector)
        requires
            b0 <= 1,
            b1 <= 1,
            b2 <= 1,
            b3 <= 1,
            b4 <= 1,
            b5 <= 1,
            b6 <= 1,
            b7 <= 1,
    ;
}

/// Bit `i` of the key's vector, or 0 past its end.
fn key_bit_at(x: &Vec<Bytes32>, i: usize) -> (r: u8)
    ensures
        r == if i < x.len() {
            key_bits(views(x@))[i as int]
        } else {
            0u8
        },
{
    if i < x.len() {
        let one = scalar_from_u8(1);
        if bytes_eq(&x[i], &one) {
            1
        } else {
            0
        }
    } else {
        0
    }
}

/// Unpacking what a bit key packs into gives the key's vector back.
pub proof fn lemma_compress_round_trip(x: Seq<Seq<u8>>, packed: Seq<u8>)
    requires
        is_bit_key(x),
        packs(packed, key_bits(x)),
    ensures
        packed.len() == (x.len() + 7) / 8,
        unpacked_key(packed, x.len()) == x,
{
    assert forall|i: int| 0 <= i < x.len() implies #[trigger] unpacked_key(packed, x.len())[i]
        == x[i] by {
        assert(i < packed.len() * 8);
        assert(bit_at(packed, i) == key_bits(x)[i]);
    }
    assert(unpacked_key(packed, x.len()) =~= x);
}

impl CompressedDdhFeSecretKey {
    /// The compact form of a key whose vector is a bit vector: `g`, `sx` and
    /// `tx` unchanged, the vector packed into `ceil(N / 8)` bytes.
    pub fn from_secret_key<const N: usize>(value: &DdhFeSecretKey<N>) -> (r: CompressedDdhFeSecretKey)
        requires
            value.x.len() == N,
            is_bit_key(views(value.x@)),
        ensures
            compresses_to(*value, r),
    {
        let n_bytes: usize = N / 8 + if N % 8 == 0 {
            0usize
        } else {
            1usize
        };
        let mut out: Vec<u8> = Vec::new();
        let mut j: usize = 0;
        while j < n_bytes
            invariant
                0 <= j <= n_bytes,
                n_bytes == (N + 7) / 8,
                value.x.len() == N,
                out.len() == j,
                forall|i: int|
                    0 <= i < j * 8 ==> #[trigger] bit_at(out@, i) == if i < N {
                        key_bits(views(value.x@))[i]
                    } else {
                        0u8
                    },
            decreases n_bytes - j,
        {
            let base: usize = j * 8;
            let b0 = key_bit_at(&value.x, base);
            let b1 = key_bit_at(&value.x, base + 1);
            let b2 = key_bit_at(&value.x, base + 2);
            let b3 = key_bit_at(&value.x, base + 3);
            let b4 = key_bit_at(&value.x, base + 4);
            let b5 = key_bit_at(&value.x, base + 5);
            let b6 = key_bit_at(&value.x, base + 6);
            let b7 = key_bit_at(&value.x, base + 7);
            let byte: u8 = (b0 << 7u8) | (b1 << 6u8) | (b2 << 5u8) | (b3 << 4u8) | (b4 << 3u8) | (b5
                << 2u8) | (b6 << 1u8) | b7;
            proof {
                lemma_pack8(b0, b1, b2, b3, b4, b5, b6, b7);
            }
            let ghost old_out = out@;
            out.push(byte);
            proof {
                assert forall|i: int| 0 <= i < (j + 1) * 8 implies #[trigger] bit_at(out@, i) == if i
                    < N {
                    key_bits(views(value.x@))[i]
                } else {
                    0u8
                } by {
                    if i < j * 8 {
                        assert(out@[i / 8] == old_out[i / 8]);
                        assert(bit_at(out@, i) == bit_at(old_out, i));
                    } else {
                        assert(i / 8 == j);
                        assert(out@[i / 8] == byte);
                        let k = i - j * 8;
                        assert(i % 8 == k);
                        if k == 0 {
                            assert(bit_at(out@, i) == b0);
                        } else if k == 1 {
                            assert(bit_at(out@, i) == b1);
                        } else if k == 2 {
                            assert(bit_at(out@, i) == b2);
                        } else if k == 3 {
                            assert(bit_at(out@, i) == b3);
                        } else if k == 4 {
                            assert(bit_at(out@, i) == b4);
                        } else if k == 5 {
                            assert(bit_at(out@, i) == b5);
                        } else if k == 6 {
                            assert(bit_at(out@, i) == b6);
                        } else {
                            assert(bit_at(out@, i) == b7);
                        }
                    }
                }
            }
            j = j + 1;
        }
        CompressedDdhFeSecretKey { g: value.g, sx: value.sx, tx: value.tx, x: out }
    }
}

impl<const N: usize> DdhFeSecretKey<N> {
    /// The key that a compact form stands for. It is refused where the packed
    /// vector does not have `ceil(N / 8)` bytes or `g` is not a valid element.
    pub fn try_from_compressed(value: &CompressedDdhFeSecretKey) -> (r: Result<DdhFeSecretKey<N>, ()>)
        ensures
            r is Ok <==> decompressible::<N>(*value),
            r matches Ok(k) ==> decompresses_to(*value, k),
    {
        let n_bytes: usize = N / 8 + if N % 8 == 0 {
            0usize
        } else {
            1usize
        };
        if value.x.len() != n_bytes {
            return Err(());
        }
        if !point_decodes(&value.g) {
            return Err(());
        }
        let mut x: Vec<Bytes32> = Vec::new();
        let mut i: usize = 0;
        while i < N
            invariant
                0 <= i <= N,
                value.x.len() == (N + 7) / 8,
                x.len() == i,
                forall|j: int| 0 <= j < i ==> #[trigger] x[j]@ == small_scalar(bit_at(value.x@, j)),
            decreases N - i,
        {
            let bit: u8 = (value.x[i / 8] >> ((7 - i % 8) as u8)) & 1u8;
            x.push(scalar_from_u8(bit));
            i = i + 1;
        }
        assert(views(x@) =~= unpacked_key(value.x@, N as nat));
        Ok(DdhFeSecretKey { g: value.g, sx: value.sx, tx: value.tx, x })
    }
}

impl<const N: usize> DdhFePublicKey<N> {
    /// The public key that a wire form stands for, where it has `N` entries and
    /// every group element is valid.
    pub fn from_compressed(value: &CompressedDdhFePublicKey) -> (r: Option<DdhFePublicKey<N>>)
        ensures
            r is Some <==> (value.mpk.len() == N && decodes(value.g@) && decodes(value.h@) && forall|
                i: int,
            | 0 <= i < value.mpk.len() ==> decodes(#[trigger] value.mpk[i]@)),
            r matches Some(k) ==> k.g == value.g && k.h == value.h && k.mpk@ == value.mpk@
                && k.wf(),
    {
        if !all_decode::<N>(&value.mpk) || !point_decodes(&value.g) || !point_decodes(&value.h) {
            return None;
        }
        Some(DdhFePublicKey { g: value.g, h: value.h, mpk: copy_encodings(&value.mpk) })
    }
}

impl<const N: usize> DdhFeCiphertext<N> {
    /// The ciphertext made of `c`, `d` and `e`, where `e` has `N` entries and
    /// every group element is valid.
    pub fn from_parts(c: Bytes32, d: Bytes32, e: Vec<Bytes32>) -> (r: Option<DdhFeCiphertext<N>>)
        ensures
            r is Some <==> (e.len() == N && decodes(c@) && decodes(d@) && forall|i: int|
                0 <= i < e.len() ==> decodes(#[trigger] e[i]@)),
            r matches Some(ct) ==> ct.c == c && ct.d == d && ct.e@ == e@ && ct.wf(),
    {
        if !all_decode::<N>(&e) || !point_decodes(&c) || !point_decodes(&d) {
            return None;
        }
        Some(DdhFeCiphertext { c, d, e })
    }
}

} // verus!
