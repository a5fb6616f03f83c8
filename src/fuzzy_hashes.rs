//! Fuzzy-hash vectors: the concatenation of a digest with its complement,
//! and its expansion into a bit vector whose inner products measure
//! Hamming distance.
use vstd::prelude::*;

verus! {

/// Length of a Nilsimsa fuzzy hash, in bytes.
pub const NILSIMSA_FH_SIZE_BYTES: usize = 32;

/// Length in bytes of a Nilsimsa fuzzy hash vector
/// (the fuzzy hash itself, and its complement concatenated).
pub const NILSIMSA_VECTOR_SIZE_BYTES: usize = 64;

/// Length in bits of a Nilsimsa fuzzy hash vector.
pub const NILSIMSA_VECTOR_SIZE_BITS: usize = 512;

/// A fuzzy hash vector. Nilsimsa is the only kind for now.
#[derive(Clone, Copy, Debug)]
pub enum FHVector {
    /// A Nilsimsa digest followed by its bitwise complement.
    NilsimsaVector([u8; 64]),
}

/// Bit `i` of a byte string, most significant bit of each byte first.
pub open spec fn bit_at(bytes: Seq<u8>, i: int) -> u8 {
    (bytes[i / 8] >> ((7 - i % 8) as u8)) & 1u8
}

/// The bits of a byte string, most significant bit of each byte first.
pub open spec fn bits_of(bytes: Seq<u8>) -> Seq<u8> {
    Seq::new(bytes.len() * 8, |i: int| bit_at(bytes, i))
}

/// The bitwise complement of a byte string.
pub open spec fn invert_bytes(h: Seq<u8>) -> Seq<u8> {
    h.map_values(|b: u8| 0xffu8 ^ b)
}

/// The complement of a bit vector.
pub open spec fn invert_bits(a: Seq<u8>) -> Seq<u8> {
    a.map_values(|b: u8| (1 - b) as u8)
}

/// The bytes of the vector of a digest: the digest, then its complement.
pub open spec fn encode_digest(h: Seq<u8>) -> Seq<u8> {
    h + invert_bytes(h)
}

/// The bit vector `v(h)` of a digest.
pub open spec fn digest_vector(h: Seq<u8>) -> Seq<u8> {
    bits_of(encode_digest(h))
}

/// Whether every entry is 0 or 1.
pub open spec fn is_bit_vector(a: Seq<u8>) -> bool {
    forall|i: int| 0 <= i < a.len() ==> #[trigger] a[i] <= 1
}

/// The inner product of two vectors of the same length.
pub open spec fn inner_product(x: Seq<u8>, y: Seq<u8>) -> int
    decreases x.len(),
{
    if x.len() == 0 {
        0
    } else {
        inner_product(x.drop_last(), y.drop_last()) + x.last() * y.last()
    }
}

/// The number of places where two vectors differ.
pub open spec fn hamming(a: Seq<u8>, b: Seq<u8>) -> int
    decreases a.len(),
{
    if a.len() == 0 {
        0
    } else {
        hamming(a.drop_last(), b.drop_last()) + if a.last() != b.last() {
            1int
        } else {
            0int
        }
    }
}

proof fn lemma_complement_bit(b: u8, k: u8)
    requires
        k < 8,
    ensures
        ((0xffu8 ^ b) >> k) & 1u8 == 1u8 - ((b >> k) & 1u8),
        (b >> k) & 1u8 <= 1,
{
    assert(((0xffu8 ^ b) >> k) & 1u8 == 1u8 - ((b >> k) & 1u8)) by (bit_vector)
        requires
            k < 8,
    ;
    assert((b >> k) & 1u8 <= 1) by (bit_vector);
}

/// The bits of a byte string are 0 or 1.
pub proof fn lemma_bits_are_bits(h: Seq<u8>)
    ensures
        is_bit_vector(bits_of(h)),
{
    assert forall|i: int| 0 <= i < bits_of(h).len() implies #[trigger] bits_of(h)[i] <= 1 by {
        lemma_complement_bit(h[i / 8], (7 - i % 8) as u8);
    }
}

/// The bits of a complemented byte string are the complemented bits.
pub proof fn lemma_invert_bytes_bits(h: Seq<u8>)
    ensures
        bits_of(invert_bytes(h)) == invert_bits(bits_of(h)),
{
    assert forall|i: int| 0 <= i < h.len() * 8 implies #[trigger] bits_of(invert_bytes(h))[i]
        == invert_bits(bits_of(h))[i] by {
        lemma_complement_bit(h[i / 8], (7 - i % 8) as u8);
    }
    assert(bits_of(invert_bytes(h)) =~= invert_bits(bits_of(h)));
}

/// The bit vector of a digest is the digest's bits followed by their complement.
pub proof fn lemma_digest_vector_layout(h: Seq<u8>)
    ensures
        digest_vector(h) == bits_of(h) + invert_bits(bits_of(h)),
{
    let e = encode_digest(h);
    let n = h.len() * 8;
    assert forall|i: int| 0 <= i < e.len() * 8 implies #[trigger] digest_vector(h)[i] == (bits_of(h)
        + invert_bits(bits_of(h)))[i] by {
        if i < n {
            assert(e[i / 8] == h[i / 8]);
        } else {
            let j = i - n;
            assert(j / 8 == i / 8 - h.len());
            assert(j % 8 == i % 8);
            assert(e[i / 8] == 0xffu8 ^ h[j / 8]);
            lemma_complement_bit(h[j / 8], (7 - j % 8) as u8);
        }
    }
    assert(digest_vector(h) =~= bits_of(h) + invert_bits(bits_of(h)));
}

proof fn lemma_inner_product_concat(a1: Seq<u8>, a2: Seq<u8>, b1: Seq<u8>, b2: Seq<u8>)
    requires
        a1.len() == b1.len(),
        a2.len() == b2.len(),
    ensures
        inner_product(a1 + a2, b1 + b2) == inner_product(a1, b1) + inner_product(a2, b2),
    decreases a2.len(),
{
    if a2.len() == 0 {
        assert(a1 + a2 =~= a1);
        assert(b1 + b2 =~= b1);
    } else {
        lemma_inner_product_concat(a1, a2.drop_last(), b1, b2.drop_last());
        assert((a1 + a2).drop_last() =~= a1 + a2.drop_last());
        assert((b1 + b2).drop_last() =~= b1 + b2.drop_last());
    }
}

proof fn lemma_inner_product_complement(a: Seq<u8>, b: Seq<u8>)
    requires
        a.len() == b.len(),
        is_bit_vector(a),
        is_bit_vector(b),
    ensures
        inner_product(a, b) + inner_product(invert_bits(a), invert_bits(b)) == a.len() - hamming(
            a,
            b,
        ),
    decreases a.len(),
{
    if a.len() > 0 {
        let (a0, b0) = (a.drop_last(), b.drop_last());
        assert(invert_bits(a).drop_last() =~= invert_bits(a0));
        assert(invert_bits(b).drop_last() =~= invert_bits(b0));
        assert(a.last() == a[a.len() - 1] && a[a.len() - 1] <= 1);
        assert(b.last() == b[b.len() - 1] && b[b.len() - 1] <= 1);
        assert(is_bit_vector(a0) && is_bit_vector(b0)) by {
            assert forall|i: int| 0 <= i < a0.len() implies #[trigger] a0[i] <= 1 && b0[i] <= 1 by {
                assert(a0[i] == a[i] && b0[i] == b[i]);
            }
        }
        let (x, y) = (a.last(), b.last());
        assert(invert_bits(a).last() == (1 - x) as u8);
        assert(invert_bits(b).last() == (1 - y) as u8);
        let d: int = if x != y {
            1
        } else {
            0
        };
        assert(x * y + ((1 - x) as u8) * ((1 - y) as u8) == 1 - d) by {
            assert(x == 0 || x == 1);
            assert(y == 0 || y == 1);
        }
        lemma_inner_product_complement(a0, b0);
    }
}

proof fn lemma_hamming_self(a: Seq<u8>)
    ensures
        hamming(a, a) == 0,
    decreases a.len(),
{
    if a.len() > 0 {
        lemma_hamming_self(a.drop_last());
    }
}

proof fn lemma_hamming_invert(a: Seq<u8>)
    requires
        is_bit_vector(a),
    ensures
        hamming(a, invert_bits(a)) == a.len(),
    decreases a.len(),
{
    if a.len() > 0 {
        assert(invert_bits(a).drop_last() =~= invert_bits(a.drop_last()));
        assert(a.last() == a[a.len() - 1] && a[a.len() - 1] <= 1);
        lemma_hamming_invert(a.drop_last());
    }
}

/// The Hamming distance between two digests is the number of their bits
/// less the inner product of their vectors: `popcount(h1 ^ h2) = 256 - <v(h1), v(h2)>`
/// for Nilsimsa digests.
pub proof fn lemma_hamming_as_inner_product(h1: Seq<u8>, h2: Seq<u8>)
    requires
        h1.len() == h2.len(),
    ensures
        hamming(bits_of(h1), bits_of(h2)) == h1.len() * 8 - inner_product(
            digest_vector(h1),
            digest_vector(h2),
        ),
{
    let (a, b) = (bits_of(h1), bits_of(h2));
    lemma_digest_vector_layout(h1);
    lemma_digest_vector_layout(h2);
    lemma_bits_are_bits(h1);
    lemma_bits_are_bits(h2);
    lemma_inner_product_concat(a, invert_bits(a), b, invert_bits(b));
    lemma_inner_product_complement(a, b);
}

/// A digest's vector has with itself an inner product of its number of bits.
pub proof fn lemma_inner_product_self(h: Seq<u8>)
    ensures
        inner_product(digest_vector(h), digest_vector(h)) == h.len() * 8,
{
    lemma_hamming_as_inner_product(h, h);
    lemma_hamming_self(bits_of(h));
}

/// A digest's vector and that of its complement have an inner product of zero.
pub proof fn lemma_inner_product_inverse(h: Seq<u8>)
    ensures
        inner_product(digest_vector(h), digest_vector(invert_bytes(h))) == 0,
{
    lemma_hamming_as_inner_product(h, invert_bytes(h));
    lemma_invert_bytes_bits(h);
    lemma_bits_are_bits(h);
    lemma_hamming_invert(bits_of(h));
}

impl FHVector {
    /// The bytes of the vector.
    pub open spec fn bytes(&self) -> Seq<u8> {
        match self {
            FHVector::NilsimsaVector(v) => v@,
        }
    }

    /// The vector of a Nilsimsa digest: the digest, then its complement.
    pub fn from_digest(value: [u8; 32]) -> (r: FHVector)
        ensures
            r.bytes() == encode_digest(value@),
    {
        let mut vec = [0u8; 64];
        let mut i: usize = 0;
        while i < 64
            invariant
                0 <= i <= 64,
                forall|j: int| 0 <= j < i ==> #[trigger] vec@[j] == encode_digest(value@)[j],
            decreases 64 - i,
        {
            let index = i % 32;
            if i < 32 {
                vec[i] = value[index];
            } else {
                vec[i] = 0xffu8 ^ value[index];
            }
            i = i + 1;
        }
        assert(vec@ =~= encode_digest(value@));
        FHVector::NilsimsaVector(vec)
    }

    /// The vector held in a byte string, which must have the length of a Nilsimsa vector.
    pub fn from_vec(value: Vec<u8>) -> (r: Result<FHVector, ()>)
        ensures
            r is Ok <==> value.len() == NILSIMSA_VECTOR_SIZE_BYTES,
            r matches Ok(v) ==> v.bytes() == value@,
    {
        if value.len() != NILSIMSA_VECTOR_SIZE_BYTES {
            return Err(());
        }
        let mut arr = [0u8; 64];
        let mut i: usize = 0;
        while i < 64
            invariant
                0 <= i <= 64,
                value.len() == 64,
                forall|j: int| 0 <= j < i ==> #[trigger] arr@[j] == value@[j],
            decreases 64 - i,
        {
            arr[i] = value[i];
            i = i + 1;
        }
        assert(arr@ =~= value@);
        Ok(FHVector::NilsimsaVector(arr))
    }

    /// The bits of the vector, most significant bit of each byte first, as an
    /// array of `N` entries; `N` must be the vector's length in bits.
    pub fn to_bits<const N: usize>(&self) -> (r: Result<[u8; N], ()>)
        ensures
            r is Ok <==> N == self.bytes().len() * 8,
            r matches Ok(b) ==> b@ == bits_of(self.bytes()),
    {
        let vector = match self {
            FHVector::NilsimsaVector(v) => v,
        };
        if N != 512 {
            return Err(());
        }
        let mut out = [0u8; N];
        let mut i: usize = 0;
        while i < N
            invariant
                0 <= i <= N,
                N == 512,
                vector@ == self.bytes(),
                forall|j: int| 0 <= j < i ==> #[trigger] out@[j] == bit_at(vector@, j),
            decreases N - i,
        {
            out[i] = (vector[i / 8] >> ((7 - i % 8) as u8)) & 1u8;
            i = i + 1;
        }
        assert(out@ =~= bits_of(vector@));
        Ok(out)
    }
}

} // verus!
