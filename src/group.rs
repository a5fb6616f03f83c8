//! The prime-order group that the inner-product scheme runs over: the
//! Ristretto group of curve25519-dalek.
//!
//! Values are held as their canonical 32-byte encodings: a scalar as the
//! little-endian integer that `Scalar::to_bytes` gives, a group element as
//! its Ristretto compression. Two elements are equal exactly when their
//! encodings are, so the scheme can compare them byte by byte.
use vstd::prelude::*;

use curve25519_dalek::ristretto::{CompressedRistretto, RistrettoBasepointTable, RistrettoPoint};
use curve25519_dalek::scalar::Scalar;
use curve25519_dalek::traits::{Identity, MultiscalarMul};
use rand::SeedableRng;

verus! {

/// Canonical encoding of a scalar or of a group element.
pub type Bytes32 = [u8; 32];

#[verifier::external_type_specification]
#[verifier::external_body]
pub struct ExStdRng(rand::rngs::StdRng);

#[verifier::external_type_specification]
#[verifier::external_body]
pub struct ExRistrettoBasepointTable(RistrettoBasepointTable);

/// A group element with a table of its multiples, for repeated
/// multiplication by scalars.
pub struct FixedBase {
    base: Bytes32,
    table: RistrettoBasepointTable,
}

impl FixedBase {
    /// The group element whose multiples the table holds.
    pub closed spec fn base(&self) -> Seq<u8> {
        self.base@
    }
}

/// `256^n`.
pub open spec fn pow256(n: nat) -> int
    decreases n,
{
    if n == 0 {
        1
    } else {
        256 * pow256((n - 1) as nat)
    }
}

/// The order of the Ristretto group, 2^252 + 27742317777372353535851937790883648493.
pub open spec fn group_order() -> int {
    16 * pow256(31) + 27742317777372353535851937790883648493int
}

/// The integer that a byte string encodes, least significant byte first.
pub open spec fn le_value(b: Seq<u8>) -> int
    decreases b.len(),
{
    if b.len() == 0 {
        0
    } else {
        b[0] as int + 256 * le_value(b.subrange(1, b.len() as int))
    }
}

/// The `n` least significant bytes of an integer, least significant first.
pub open spec fn le_bytes(v: int, n: nat) -> Seq<u8>
    decreases n,
{
    if n == 0 {
        Seq::empty()
    } else {
        seq![(v % 256) as u8] + le_bytes(v / 256, (n - 1) as nat)
    }
}

/// The canonical encoding of the scalar `v`, for `0 <= v < group_order()`.
pub open spec fn scalar_encoding(v: int) -> Seq<u8> {
    le_bytes(v, 32)
}

/// The scalar sum, by the encodings.
pub open spec fn scalar_sum(a: Seq<u8>, b: Seq<u8>) -> Seq<u8> {
    scalar_encoding((le_value(a) + le_value(b)) % group_order())
}

/// The scalar product, by the encodings.
pub open spec fn scalar_product(a: Seq<u8>, b: Seq<u8>) -> Seq<u8> {
    scalar_encoding((le_value(a) * le_value(b)) % group_order())
}

/// The additive inverse of a scalar, by the encodings.
pub open spec fn scalar_negation(a: Seq<u8>) -> Seq<u8> {
    scalar_encoding((group_order() - le_value(a) % group_order()) % group_order())
}

pub proof fn lemma_pow256_grows(m: nat, n: nat)
    requires
        m <= n,
    ensures
        0 < pow256(m) <= pow256(n),
    decreases n,
{
    if n > m {
        lemma_pow256_grows(m, (n - 1) as nat);
    } else if n > 0 {
        lemma_pow256_grows(0, (n - 1) as nat);
    }
}

/// The group order fits in 32 bytes.
pub proof fn lemma_group_order_fits()
    ensures
        0 < group_order() < pow256(32),
{
    reveal_with_fuel(pow256, 16);
    assert(pow256(15) == 1329227995784915872903807060280344576int);
    lemma_pow256_grows(15, 30);
    let (p15, p30, p31) = (pow256(15), pow256(30), pow256(31));
    assert(p31 == 256 * p30);
    assert(pow256(32) == 256 * p31);
    assert(16 * p31 + 27742317777372353535851937790883648493int < 256 * p31) by (nonlinear_arith)
        requires
            p15 == 1329227995784915872903807060280344576int,
            p15 <= p30,
            p31 == 256 * p30,
    ;
}

/// Reading back the bytes of a value that fits gives the value.
pub proof fn lemma_le_round_trip(v: int, n: nat)
    requires
        0 <= v < pow256(n),
    ensures
        le_bytes(v, n).len() == n,
        le_value(le_bytes(v, n)) == v,
    decreases n,
{
    if n > 0 {
        let t = le_bytes(v / 256, (n - 1) as nat);
        lemma_le_round_trip(v / 256, (n - 1) as nat);
        let b = le_bytes(v, n);
        assert(b.subrange(1, b.len() as int) =~= t);
    }
}

/// Reading back a scalar encoding gives the scalar.
pub proof fn lemma_scalar_round_trip(v: int)
    requires
        0 <= v < group_order(),
    ensures
        scalar_encoding(v).len() == 32,
        le_value(scalar_encoding(v)) == v,
{
    lemma_group_order_fits();
    lemma_le_round_trip(v, 32);
}

/// The scalar encoding of a small integer: the integer in the first byte.
pub open spec fn small_scalar(v: u8) -> Seq<u8> {
    Seq::new(32, |i: int| if i == 0 { v } else { 0u8 })
}

/// The encoding of the identity element.
pub open spec fn identity_bytes() -> Seq<u8> {
    Seq::new(32, |i: int| 0u8)
}

/// The views of a sequence of encodings.
pub open spec fn views(v: Seq<Bytes32>) -> Seq<Seq<u8>> {
    v.map_values(|b: Bytes32| b@)
}

/// Whether a byte string is the canonical encoding of a group element.
pub uninterp spec fn decodes(b: Seq<u8>) -> bool;

/// The sum of two group elements, by their encodings.
pub uninterp spec fn point_sum(a: Seq<u8>, b: Seq<u8>) -> Seq<u8>;

/// The product `s * p`, read from a table of multiples of `p`.
pub uninterp spec fn table_product(s: Seq<u8>, p: Seq<u8>) -> Seq<u8>;

/// The multi-scalar product `sum of scalars[i] * points[i]`, by the encodings.
pub uninterp spec fn multiscalar_product(scalars: Seq<Seq<u8>>, points: Seq<Seq<u8>>) -> Seq<u8>;

pub proof fn lemma_le_value_zero_tail(b: Seq<u8>)
    requires
        forall|i: int| 0 <= i < b.len() ==> b[i] == 0,
    ensures
        le_value(b) == 0,
    decreases b.len(),
{
    if b.len() > 0 {
        lemma_le_value_zero_tail(b.subrange(1, b.len() as int));
    }
}

proof fn lemma_le_bytes_zero(n: nat)
    ensures
        le_bytes(0, n) =~= Seq::new(n, |i: int| 0u8),
    decreases n,
{
    if n > 0 {
        lemma_le_bytes_zero((n - 1) as nat);
    }
}

/// A small scalar is the canonical encoding of its integer.
pub proof fn lemma_small_scalar_encoding(v: u8)
    ensures
        small_scalar(v) == scalar_encoding(v as int),
{
    lemma_le_bytes_zero(31);
    assert(small_scalar(v) =~= scalar_encoding(v as int));
}

/// A small scalar encodes the integer it was made from.
pub proof fn lemma_small_scalar_value(v: u8)
    ensures
        le_value(small_scalar(v)) == v as int,
{
    let s = small_scalar(v);
    lemma_le_value_zero_tail(s.subrange(1, 32));
}

/// The scalar `v`: the integer in the first byte, as `Scalar::from(u8)` lays it out.
pub(crate) fn scalar_from_u8(v: u8) -> (r: Bytes32)
    ensures
        r@ == small_scalar(v),
{
    let mut r = [0u8; 32];
    r[0] = v;
    assert(r@ =~= small_scalar(v));
    r
}

/// Relies on `Scalar::from_bytes_mod_order` and `Scalar + Scalar`: addition modulo the group order.
#[verifier::external_body]
pub(crate) fn scalar_add(a: &Bytes32, b: &Bytes32) -> (r: Bytes32)
    ensures
        r@ == scalar_sum(a@, b@),
{
    (Scalar::from_bytes_mod_order(*a) + Scalar::from_bytes_mod_order(*b)).to_bytes()
}

/// Relies on `Scalar::from_bytes_mod_order` and `Scalar * Scalar`: multiplication modulo the group order.
#[verifier::external_body]
pub(crate) fn scalar_mul(a: &Bytes32, b: &Bytes32) -> (r: Bytes32)
    ensures
        r@ == scalar_product(a@, b@),
{
    (Scalar::from_bytes_mod_order(*a) * Scalar::from_bytes_mod_order(*b)).to_bytes()
}

/// Relies on `Scalar::from_bytes_mod_order` and `-Scalar`: the additive inverse modulo the group order.
#[verifier::external_body]
pub(crate) fn scalar_neg(a: &Bytes32) -> (r: Bytes32)
    ensures
        r@ == scalar_negation(a@),
{
    (-Scalar::from_bytes_mod_order(*a)).to_bytes()
}

/// Relies on `Scalar::random`: a uniform scalar, in canonical form.
#[verifier::external_body]
pub(crate) fn random_scalar(rng: &mut rand::rngs::StdRng) -> (r: Bytes32)
    ensures
        le_value(r@) < group_order(),
{
    Scalar::random(rng).to_bytes()
}

/// Relies on `RistrettoPoint::random` and `compress`: a uniform group element, canonically encoded.
#[verifier::external_body]
pub(crate) fn random_point(rng: &mut rand::rngs::StdRng) -> (r: Bytes32)
    ensures
        decodes(r@),
{
    RistrettoPoint::random(rng).compress().to_bytes()
}

/// Relies on `RistrettoPoint::identity` and `compress`: the identity encodes as 32 zero bytes.
#[verifier::external_body]
pub(crate) fn identity_point() -> (r: Bytes32)
    ensures
        r@ == identity_bytes(),
        decodes(r@),
{
    RistrettoPoint::identity().compress().to_bytes()
}

/// Relies on `CompressedRistretto::decompress`: `Some` exactly on canonical encodings.
#[verifier::external_body]
pub(crate) fn point_decodes(b: &Bytes32) -> (r: bool)
    ensures
        r == decodes(b@),
{
    CompressedRistretto(*b).decompress().is_some()
}

/// Relies on `RistrettoPoint + RistrettoPoint`, between decompression and compression.
#[verifier::external_body]
pub(crate) fn point_add(a: &Bytes32, b: &Bytes32) -> (r: Bytes32)
    requires
        decodes(a@),
        decodes(b@),
    ensures
        r@ == point_sum(a@, b@),
        decodes(r@),
{
    let pa = CompressedRistretto(*a).decompress().unwrap();
    let pb = CompressedRistretto(*b).decompress().unwrap();
    (pa + pb).compress().to_bytes()
}

/// Relies on `RistrettoBasepointTable::create`: a table of the multiples of `base`.
#[verifier::external_body]
pub(crate) fn fixed_base(base: &Bytes32) -> (r: FixedBase)
    requires
        decodes(base@),
    ensures
        r.base() == base@,
{
    let p = CompressedRistretto(*base).decompress().unwrap();
    FixedBase { base: *base, table: RistrettoBasepointTable::create(&p) }
}

/// Relies on `&RistrettoBasepointTable * &Scalar`: the scalar times the table's base.
#[verifier::external_body]
pub(crate) fn table_mul(fixed: &FixedBase, s: &Bytes32) -> (r: Bytes32)
    ensures
        r@ == table_product(s@, fixed.base()),
        decodes(r@),
{
    (&fixed.table * &Scalar::from_bytes_mod_order(*s)).compress().to_bytes()
}

/// Relies on `RistrettoPoint::multiscalar_mul`, which asks for as many scalars as points.
#[verifier::external_body]
pub(crate) fn multiscalar(scalars: &Vec<Bytes32>, points: &Vec<Bytes32>) -> (r: Bytes32)
    requires
        scalars.len() == points.len(),
        forall|i: int| 0 <= i < points.len() ==> decodes(#[trigger] points[i]@),
    ensures
        r@ == multiscalar_product(views(scalars@), views(points@)),
        decodes(r@),
{
    let s = scalars.iter().map(|b| Scalar::from_bytes_mod_order(*b));
    let p = points.iter().map(|b| CompressedRistretto(*b).decompress().unwrap());
    RistrettoPoint::multiscalar_mul(s, p).compress().to_bytes()
}

/// Relies on `StdRng::from_rng` with `OsRng`: a generator seeded by the
/// operating system, or `None` where the system cannot supply entropy.
#[verifier::external_body]
pub(crate) fn fresh_rng() -> (r: Option<rand::rngs::StdRng>) {
    rand::rngs::StdRng::from_rng(rand::rngs::OsRng).ok()
}

/// Whether two encodings are equal, byte by byte.
pub(crate) fn bytes_eq(a: &Bytes32, b: &Bytes32) -> (r: bool)
    ensures
        r == (a@ == b@),
{
    let mut i: usize = 0;
    while i < 32
        invariant
            0 <= i <= 32,
            forall|j: int| 0 <= j < i ==> a@[j] == b@[j],
        decreases 32 - i,
    {
        if a[i] != b[i] {
            return false;
        }
        i = i + 1;
    }
    assert(a@ =~= b@);
    true
}

} // verus!
